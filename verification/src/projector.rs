//! The metric projector.
//!
//! A projection pass walks one document tree per entity category, extracts
//! the category's known fields defensively, resolves display names against
//! the catalog, and appends metric observations. A missing or mismatched
//! field costs only its own observation; the pass never fails.

use vstd::prelude::*;

verus! {

use crate::catalog::{Catalog, string_views};
use crate::metrics::{MetricId, MetricObservation, ObsView, all_obs_wf, obs_views, obs_wf};
use crate::node::{
    Node,
    spec_as_int,
    spec_as_list,
    spec_as_number,
    spec_as_object,
    spec_as_text,
    spec_get,
};
use crate::numeric::{Fixed, fixed_from_len, spec_fixed_from_int};
use crate::resolver::{RESOLVE_FUEL, resolve, spec_resolve};
use crate::text::{i64_to_string, spec_int_chars, str_eq};

/// The numeric reading of a field.
pub open spec fn spec_num_field(n: Node, f: Seq<char>) -> Option<Fixed> {
    match spec_get(n, f) {
        Some(x) => spec_as_number(x),
        None => None,
    }
}

fn num_field(n: &Node, f: &str) -> (r: Option<Fixed>)
    ensures
        r == spec_num_field(*n, f@),
{
    match n.get(f) {
        Some(x) => x.as_number(),
        None => None,
    }
}

/// The list elements of a field.
pub open spec fn spec_list_field(n: Node, f: Seq<char>) -> Option<Seq<Node>> {
    match spec_get(n, f) {
        Some(x) => spec_as_list(x),
        None => None,
    }
}

fn list_field<'a>(n: &'a Node, f: &str) -> (r: Option<&'a Vec<Node>>)
    ensures
        match r {
            Some(items) => spec_list_field(*n, f@) == Some(items@),
            None => spec_list_field(*n, f@) is None,
        },
{
    match n.get(f) {
        Some(x) => x.as_list(),
        None => None,
    }
}

/// The text of a field.
pub open spec fn spec_text_field(n: Node, f: Seq<char>) -> Option<Seq<char>> {
    match spec_get(n, f) {
        Some(x) => spec_as_text(x),
        None => None,
    }
}

fn text_field<'a>(n: &'a Node, f: &str) -> (r: Option<&'a String>)
    ensures
        match r {
            Some(t) => spec_text_field(*n, f@) == Some(t@),
            None => spec_text_field(*n, f@) is None,
        },
{
    match n.get(f) {
        Some(x) => x.as_text(),
        None => None,
    }
}

/// The whole-number value of a field.
pub open spec fn spec_int_field(n: Node, f: Seq<char>) -> Option<int> {
    match spec_get(n, f) {
        Some(x) => spec_as_int(x),
        None => None,
    }
}

fn int_field(n: &Node, f: &str) -> (r: Option<i64>)
    ensures
        match r {
            Some(i) => spec_int_field(*n, f@) == Some(i as int),
            None => spec_int_field(*n, f@) is None,
        },
{
    match n.get(f) {
        Some(x) => x.as_int(),
        None => None,
    }
}

/// The fields of an object-valued field.
pub open spec fn spec_obj_field(n: Node, f: Seq<char>) -> Option<Seq<(String, Node)>> {
    match spec_get(n, f) {
        Some(x) => spec_as_object(x),
        None => None,
    }
}

fn obj_field<'a>(n: &'a Node, f: &str) -> (r: Option<&'a Vec<(String, Node)>>)
    ensures
        match r {
            Some(fs) => spec_obj_field(*n, f@) == Some(fs@),
            None => spec_obj_field(*n, f@) is None,
        },
{
    match n.get(f) {
        Some(x) => x.as_object(),
        None => None,
    }
}

/// Appends one observation; the labels arrive in schema order.
fn emit(out: &mut Vec<MetricObservation>, metric: MetricId, labels: Vec<String>, value: Fixed)
    ensures
        obs_views(final (out)@) == obs_views(old(out)@).push(
            ObsView { metric, labels: string_views(labels@), value },
        ),
{
    let ghost lv = string_views(labels@);
    out.push(MetricObservation { metric, labels, value });
    proof {
        let o = out@.last();
        assert(o@.labels =~= lv);
        assert(obs_views(out@) =~= obs_views(old(out)@).push(o@));
    }
}

/// One power observation per present power field, labeled with its kind.
pub open spec fn spec_power_part(
    country: Node,
    save: Seq<char>,
    name: Seq<char>,
    field: Seq<char>,
    kind: Seq<char>,
) -> Seq<ObsView> {
    match spec_num_field(country, field) {
        Some(v) => seq![
            ObsView {
                metric: MetricId::CountryPower,
                labels: seq![save, kind, name],
                value: v,
            },
        ],
        None => Seq::empty(),
    }
}

/// The power observations of one country: military, tech, and economic, in
/// that order, each present exactly when its field reads as a number.
pub open spec fn spec_country_powers(country: Node, save: Seq<char>, name: Seq<char>) -> Seq<
    ObsView,
> {
    spec_power_part(country, save, name, "military_power"@, "military"@) + spec_power_part(
        country,
        save,
        name,
        "tech_power"@,
        "tech"@,
    ) + spec_power_part(country, save, name, "economy_power"@, "economic"@)
}

fn emit_power(
    country: &Node,
    field: &str,
    kind: &str,
    name: &str,
    save: &str,
    out: &mut Vec<MetricObservation>,
)
    ensures
        obs_views(final (out)@) == obs_views(old(out)@) + spec_power_part(
            *country,
            save@,
            name@,
            field@,
            kind@,
        ),
{
    let ghost start = obs_views(out@);
    match num_field(country, field) {
        Some(v) => {
            let mut labels: Vec<String> = Vec::new();
            labels.push(save.to_owned());
            labels.push(kind.to_owned());
            labels.push(name.to_owned());
            proof {
                assert(string_views(labels@) =~= seq![save@, kind@, name@]);
            }
            emit(out, MetricId::CountryPower, labels, v);
            proof {
                assert(obs_views(out@) =~= start + spec_power_part(
                    *country,
                    save@,
                    name@,
                    field@,
                    kind@,
                ));
            }
        },
        None => {
            proof {
                assert(obs_views(out@) =~= start + spec_power_part(
                    *country,
                    save@,
                    name@,
                    field@,
                    kind@,
                ));
            }
        },
    }
}

/// Projects the three power fields of a country.
pub fn get_country_powers(
    country: &Node,
    name: &str,
    save: &str,
    out: &mut Vec<MetricObservation>,
)
    ensures
        obs_views(final (out)@) == obs_views(old(out)@) + spec_country_powers(
            *country,
            save@,
            name@,
        ),
{
    let ghost start = obs_views(out@);
    emit_power(country, "military_power", "military", name, save, out);
    emit_power(country, "tech_power", "tech", name, save, out);
    emit_power(country, "economy_power", "economic", name, save, out);
    proof {
        assert(obs_views(out@) =~= start + spec_country_powers(*country, save@, name@));
    }
}

/// A single observation counting a list field's elements, or nothing when
/// the field is not a list.
pub open spec fn spec_len_part(
    country: Node,
    save: Seq<char>,
    name: Seq<char>,
    field: Seq<char>,
    metric: MetricId,
) -> Seq<ObsView> {
    match spec_list_field(country, field) {
        Some(items) => seq![
            ObsView {
                metric,
                labels: seq![save, name],
                value: spec_fixed_from_int(items.len() as int),
            },
        ],
        None => Seq::empty(),
    }
}

fn emit_len(
    country: &Node,
    field: &str,
    metric: MetricId,
    name: &str,
    save: &str,
    out: &mut Vec<MetricObservation>,
)
    ensures
        obs_views(final (out)@) == obs_views(old(out)@) + spec_len_part(
            *country,
            save@,
            name@,
            field@,
            metric,
        ),
{
    let ghost start = obs_views(out@);
    match list_field(country, field) {
        Some(items) => {
            let v = fixed_from_len(items.len());
            let mut labels: Vec<String> = Vec::new();
            labels.push(save.to_owned());
            labels.push(name.to_owned());
            proof {
                assert(string_views(labels@) =~= seq![save@, name@]);
            }
            emit(out, metric, labels, v);
            proof {
                assert(obs_views(out@) =~= start + spec_len_part(
                    *country,
                    save@,
                    name@,
                    field@,
                    metric,
                ));
            }
        },
        None => {
            proof {
                assert(obs_views(out@) =~= start + spec_len_part(
                    *country,
                    save@,
                    name@,
                    field@,
                    metric,
                ));
            }
        },
    }
}

/// The fleet-count observation of a country: how many fleets its fleet
/// manager owns.
pub open spec fn spec_country_fleets(country: Node, save: Seq<char>, name: Seq<char>) -> Seq<
    ObsView,
> {
    match spec_get(country, "fleets_manager"@) {
        Some(fm) => match spec_get(fm, "owned_fleets"@) {
            Some(of) => match spec_as_list(of) {
                Some(items) => seq![
                    ObsView {
                        metric: MetricId::CountryFleets,
                        labels: seq![save, name],
                        value: spec_fixed_from_int(items.len() as int),
                    },
                ],
                None => Seq::empty(),
            },
            None => Seq::empty(),
        },
        None => Seq::empty(),
    }
}

/// Projects the owned-fleet count of a country.
pub fn get_country_fleets(
    country: &Node,
    name: &str,
    save: &str,
    out: &mut Vec<MetricObservation>,
)
    ensures
        obs_views(final (out)@) == obs_views(old(out)@) + spec_country_fleets(
            *country,
            save@,
            name@,
        ),
{
    let ghost start = obs_views(out@);
    let items_opt = match country.get("fleets_manager") {
        Some(fm) => match fm.get("owned_fleets") {
            Some(of) => of.as_list(),
            None => None,
        },
        None => None,
    };
    match items_opt {
        Some(items) => {
            let v = fixed_from_len(items.len());
            let mut labels: Vec<String> = Vec::new();
            labels.push(save.to_owned());
            labels.push(name.to_owned());
            proof {
                assert(string_views(labels@) =~= seq![save@, name@]);
            }
            emit(out, MetricId::CountryFleets, labels, v);
            proof {
                assert(obs_views(out@) =~= start + spec_country_fleets(*country, save@, name@));
            }
        },
        None => {
            proof {
                assert(obs_views(out@) =~= start + spec_country_fleets(*country, save@, name@));
            }
        },
    }
}

/// The balance observations of a country: one per numeric resource under
/// the budget's current income high-water mark, labeled with the resource
/// name, in field order.
pub open spec fn spec_balance_entries(
    fields: Seq<(String, Node)>,
    save: Seq<char>,
    name: Seq<char>,
) -> Seq<ObsView>
    decreases fields.len(),
{
    if fields.len() == 0 {
        Seq::empty()
    } else {
        let head: Seq<ObsView> = match spec_as_number(fields[0].1) {
            Some(v) => seq![
                ObsView {
                    metric: MetricId::CountryBalance,
                    labels: seq![save, name, fields[0].0@],
                    value: v,
                },
            ],
            None => Seq::empty(),
        };
        head + spec_balance_entries(fields.skip(1), save, name)
    }
}

/// The balance observations of a country.
pub open spec fn spec_country_balance(country: Node, save: Seq<char>, name: Seq<char>) -> Seq<
    ObsView,
> {
    match spec_get(country, "budget"@) {
        Some(b) => match spec_get(b, "income_high_water_mark"@) {
            Some(h) => match spec_get(h, "current"@) {
                Some(c) => match spec_as_object(c) {
                    Some(fields) => spec_balance_entries(fields, save, name),
                    None => Seq::empty(),
                },
                None => Seq::empty(),
            },
            None => Seq::empty(),
        },
        None => Seq::empty(),
    }
}

/// Projects the current resource balances of a country.
pub fn get_country_balance(
    country: &Node,
    name: &str,
    save: &str,
    out: &mut Vec<MetricObservation>,
)
    ensures
        obs_views(final (out)@) == obs_views(old(out)@) + spec_country_balance(
            *country,
            save@,
            name@,
        ),
{
    let ghost start = obs_views(out@);
    let fields_opt = match country.get("budget") {
        Some(b) => match b.get("income_high_water_mark") {
            Some(h) => match h.get("current") {
                Some(c) => c.as_object(),
                None => None,
            },
            None => None,
        },
        None => None,
    };
    match fields_opt {
        Some(fields) => {
            let mut j: usize = 0;
            proof {
                assert(fields@.skip(0) =~= fields@);
            }
            while j < fields.len()
                invariant
                    j <= fields@.len(),
                    obs_views(out@) + spec_balance_entries(fields@.skip(j as int), save@, name@)
                        == start + spec_balance_entries(fields@, save@, name@),
                decreases fields@.len() - j,
            {
                let ghost rest = fields@.skip(j as int);
                let ghost before = obs_views(out@);
                proof {
                    assert(rest[0] == fields@[j as int]);
                    assert(rest.skip(1) =~= fields@.skip(j + 1));
                }
                match fields[j].1.as_number() {
                    Some(v) => {
                        let mut labels: Vec<String> = Vec::new();
                        labels.push(save.to_owned());
                        labels.push(name.to_owned());
                        labels.push(fields[j].0.clone());
                        proof {
                            assert(string_views(labels@) =~= seq![
                                save@,
                                name@,
                                fields@[j as int].0@,
                            ]);
                        }
                        emit(out, MetricId::CountryBalance, labels, v);
                    },
                    None => {},
                }
                j = j + 1;
                proof {
                    assert(obs_views(out@) + spec_balance_entries(
                        fields@.skip(j as int),
                        save@,
                        name@,
                    ) =~= start + spec_balance_entries(fields@, save@, name@));
                }
            }
            proof {
                assert(fields@.skip(fields@.len() as int) =~= Seq::<(String, Node)>::empty());
                assert(obs_views(out@) =~= start + spec_country_balance(*country, save@, name@));
            }
        },
        None => {
            proof {
                assert(obs_views(out@) =~= start + spec_country_balance(*country, save@, name@));
            }
        },
    }
}

/// A victory-status observation for one of the rank/score fields.
pub open spec fn spec_victory_part(
    country: Node,
    save: Seq<char>,
    name: Seq<char>,
    field: Seq<char>,
    kind: Seq<char>,
) -> Seq<ObsView> {
    match spec_num_field(country, field) {
        Some(v) => seq![
            ObsView {
                metric: MetricId::CountryVictoryStatus,
                labels: seq![save, name, kind],
                value: v,
            },
        ],
        None => Seq::empty(),
    }
}

/// The victory observations of a country: rank then score.
pub open spec fn spec_country_victory(country: Node, save: Seq<char>, name: Seq<char>) -> Seq<
    ObsView,
> {
    spec_victory_part(country, save, name, "victory_rank"@, "rank"@) + spec_victory_part(
        country,
        save,
        name,
        "victory_score"@,
        "score"@,
    )
}

fn emit_victory(
    country: &Node,
    field: &str,
    kind: &str,
    name: &str,
    save: &str,
    out: &mut Vec<MetricObservation>,
)
    ensures
        obs_views(final (out)@) == obs_views(old(out)@) + spec_victory_part(
            *country,
            save@,
            name@,
            field@,
            kind@,
        ),
{
    let ghost start = obs_views(out@);
    match num_field(country, field) {
        Some(v) => {
            let mut labels: Vec<String> = Vec::new();
            labels.push(save.to_owned());
            labels.push(name.to_owned());
            labels.push(kind.to_owned());
            proof {
                assert(string_views(labels@) =~= seq![save@, name@, kind@]);
            }
            emit(out, MetricId::CountryVictoryStatus, labels, v);
            proof {
                assert(obs_views(out@) =~= start + spec_victory_part(
                    *country,
                    save@,
                    name@,
                    field@,
                    kind@,
                ));
            }
        },
        None => {
            proof {
                assert(obs_views(out@) =~= start + spec_victory_part(
                    *country,
                    save@,
                    name@,
                    field@,
                    kind@,
                ));
            }
        },
    }
}

/// Projects the victory rank and score of a country.
pub fn get_country_victory_score_n_rank(
    country: &Node,
    name: &str,
    save: &str,
    out: &mut Vec<MetricObservation>,
)
    ensures
        obs_views(final (out)@) == obs_views(old(out)@) + spec_country_victory(
            *country,
            save@,
            name@,
        ),
{
    let ghost start = obs_views(out@);
    emit_victory(country, "victory_rank", "rank", name, save, out);
    emit_victory(country, "victory_score", "score", name, save, out);
    proof {
        assert(obs_views(out@) =~= start + spec_country_victory(*country, save@, name@));
    }
}

/// Projects the war-ally count of a country.
pub fn get_country_war_allies(
    country: &Node,
    name: &str,
    save: &str,
    out: &mut Vec<MetricObservation>,
)
    ensures
        obs_views(final (out)@) == obs_views(old(out)@) + spec_len_part(
            *country,
            save@,
            name@,
            "war_allies"@,
            MetricId::CountryWarAllies,
        ),
{
    emit_len(country, "war_allies", MetricId::CountryWarAllies, name, save, out);
}

/// Projects the controlled-celestial-body count of a country.
pub fn get_country_controlled_celestial_bodies(
    country: &Node,
    name: &str,
    save: &str,
    out: &mut Vec<MetricObservation>,
)
    ensures
        obs_views(final (out)@) == obs_views(old(out)@) + spec_len_part(
            *country,
            save@,
            name@,
            "controlled_planets"@,
            MetricId::CountryControlledCelestialBodies,
        ),
{
    emit_len(
        country,
        "controlled_planets",
        MetricId::CountryControlledCelestialBodies,
        name,
        save,
        out,
    );
}

/// Projects the colonized-planet count of a country.
pub fn get_country_colonized_planets(
    country: &Node,
    name: &str,
    save: &str,
    out: &mut Vec<MetricObservation>,
)
    ensures
        obs_views(final (out)@) == obs_views(old(out)@) + spec_len_part(
            *country,
            save@,
            name@,
            "owned_planets"@,
            MetricId::CountryColonizedPlanets,
        ),
{
    emit_len(country, "owned_planets", MetricId::CountryColonizedPlanets, name, save, out);
}

/// Projects the surveyed-system count of a country.
pub fn get_country_surveyed_systems(
    country: &Node,
    name: &str,
    save: &str,
    out: &mut Vec<MetricObservation>,
)
    ensures
        obs_views(final (out)@) == obs_views(old(out)@) + spec_len_part(
            *country,
            save@,
            name@,
            "surveyed"@,
            MetricId::CountrySurveyedSystems,
        ),
{
    emit_len(country, "surveyed", MetricId::CountrySurveyedSystems, name, save, out);
}

/// The whole-number readings of a list of ship-id nodes.
pub open spec fn spec_ints_of(items: Seq<Node>) -> Seq<Option<i64>> {
    Seq::new(items.len(), |i: int| spec_as_int_i64(items[i]))
}

/// The whole-number value of a node, at machine width.
pub open spec fn spec_as_int_i64(n: Node) -> Option<i64> {
    match n {
        Node::Scalar(crate::node::Scalar::Int(i)) => Some(i),
        _ => None,
    }
}

/// The ship ids of a country: for each owned fleet, the `ships` list of the
/// fleet it references in the fleet collection, read as whole numbers and
/// concatenated in order.
pub open spec fn spec_gather_ship_ids(owned: Seq<Node>, fleets: Node) -> Seq<Option<i64>>
    decreases owned.len(),
{
    if owned.len() == 0 {
        Seq::empty()
    } else {
        let head: Seq<Option<i64>> = match spec_int_field(owned[0], "fleet"@) {
            Some(fl) => match spec_get(fleets, spec_int_chars(fl)) {
                Some(fnode) => match spec_list_field(fnode, "ships"@) {
                    Some(sh) => spec_ints_of(sh),
                    None => Seq::empty(),
                },
                None => Seq::empty(),
            },
            None => Seq::empty(),
        };
        head + spec_gather_ship_ids(owned.skip(1), fleets)
    }
}

/// The design a ship id references, with a missing link read as minus one.
pub open spec fn spec_design_of(ships: Node, id: int) -> int {
    match spec_get(ships, spec_int_chars(id)) {
        Some(s) => match spec_int_field(s, "ship_design"@) {
            Some(d) => d,
            None => -1,
        },
        None => -1,
    }
}

/// The size label of a design, with a missing link read as `no_size`.
pub open spec fn spec_size_of(designs: Node, d: int) -> Seq<char> {
    match spec_get(designs, spec_int_chars(d)) {
        Some(dn) => match spec_text_field(dn, "ship_size"@) {
            Some(t) => t,
            None => "no_size"@,
        },
        None => "no_size"@,
    }
}

/// Whether a key renders one of the gathered ship ids in decimal.
pub open spec fn spec_id_renders(e: Option<i64>, k: Seq<char>) -> bool {
    match e {
        Some(x) => spec_int_chars(x as int) == k,
        None => false,
    }
}

pub open spec fn spec_key_in_ids(k: Seq<char>, ids: Seq<Option<i64>>) -> bool {
    exists|j: int| 0 <= j < ids.len() && spec_id_renders(#[trigger] ids[j], k)
}

/// Whether a ship-collection field belongs to the gathered ids and uses the
/// given design.
pub open spec fn spec_ship_matches(f: (String, Node), ids: Seq<Option<i64>>, design: int) -> bool {
    spec_key_in_ids(f.0@, ids) && (match spec_int_field(f.1, "ship_design"@) {
        Some(d) => d,
        None => -1,
    }) == design
}

/// How many ships of the gathered ids use the given design.
pub open spec fn spec_count_design(
    fields: Seq<(String, Node)>,
    ids: Seq<Option<i64>>,
    design: int,
) -> nat
    decreases fields.len(),
{
    if fields.len() == 0 {
        0
    } else {
        (if spec_ship_matches(fields[0], ids, design) {
            1nat
        } else {
            0nat
        }) + spec_count_design(fields.skip(1), ids, design)
    }
}

/// The ship-collection fields of the ship node, or none for another shape.
pub open spec fn spec_ship_fields(ships: Node) -> Seq<(String, Node)> {
    match spec_as_object(ships) {
        Some(fs) => fs,
        None => Seq::empty(),
    }
}

/// The observation one gathered ship id yields: the count of same-design
/// ships among the gathered ids, labeled by the design's size.
pub open spec fn spec_ship_obs(
    e: Option<i64>,
    ships: Node,
    designs: Node,
    ids: Seq<Option<i64>>,
    save: Seq<char>,
    name: Seq<char>,
) -> ObsView {
    let id: int = match e {
        Some(i) => i as int,
        None => 0,
    };
    let d = spec_design_of(ships, id);
    ObsView {
        metric: MetricId::CountryShipSizes,
        labels: seq![save, name, spec_size_of(designs, d)],
        value: spec_fixed_from_int(spec_count_design(spec_ship_fields(ships), ids, d) as int),
    }
}

/// The ship-size observations of a country: one per gathered ship id.
pub open spec fn spec_country_ship_types(
    country: Node,
    fleets: Node,
    ships: Node,
    designs: Node,
    save: Seq<char>,
    name: Seq<char>,
) -> Seq<ObsView> {
    let owned: Seq<Node> = match spec_get(country, "fleets_manager"@) {
        Some(fm) => match spec_get(fm, "owned_fleets"@) {
            Some(of) => match spec_as_list(of) {
                Some(items) => items,
                None => Seq::empty(),
            },
            None => Seq::empty(),
        },
        None => Seq::empty(),
    };
    let ids = spec_gather_ship_ids(owned, fleets);
    Seq::new(ids.len(), |i: int| spec_ship_obs(ids[i], ships, designs, ids, save, name))
}

fn design_of(ships: &Node, id: i64) -> (r: i64)
    ensures
        r as int == spec_design_of(*ships, id as int),
{
    let key = i64_to_string(id);
    match ships.get(key.as_str()) {
        Some(s) => match int_field(s, "ship_design") {
            Some(d) => d,
            None => -1,
        },
        None => -1,
    }
}

fn size_of(designs: &Node, d: i64) -> (r: String)
    ensures
        r@ == spec_size_of(*designs, d as int),
{
    let key = i64_to_string(d);
    match designs.get(key.as_str()) {
        Some(dn) => match text_field(dn, "ship_size") {
            Some(t) => t.clone(),
            None => "no_size".to_owned(),
        },
        None => "no_size".to_owned(),
    }
}

fn ids_contain_key(ids: &Vec<Option<i64>>, k: &String) -> (r: bool)
    ensures
        r == spec_key_in_ids(k@, ids@),
{
    let mut j: usize = 0;
    while j < ids.len()
        invariant
            j <= ids@.len(),
            forall|m: int| 0 <= m < j ==> !spec_id_renders(#[trigger] ids@[m], k@),
        decreases ids@.len() - j,
    {
        match ids[j] {
            Some(x) => {
                let rendered = i64_to_string(x);
                if str_eq(rendered.as_str(), k.as_str()) {
                    assert(spec_id_renders(ids@[j as int], k@));
                    return true;
                }
            },
            None => {},
        }
        j = j + 1;
    }
    false
}

fn count_design(fields: &Vec<(String, Node)>, ids: &Vec<Option<i64>>, design: i64) -> (r: usize)
    ensures
        r == spec_count_design(fields@, ids@, design as int),
{
    let mut cnt: usize = 0;
    let mut j: usize = 0;
    proof {
        assert(fields@.skip(0) =~= fields@);
    }
    while j < fields.len()
        invariant
            j <= fields@.len(),
            cnt <= j,
            cnt + spec_count_design(fields@.skip(j as int), ids@, design as int)
                == spec_count_design(fields@, ids@, design as int),
        decreases fields@.len() - j,
    {
        let ghost rest = fields@.skip(j as int);
        proof {
            assert(rest[0] == fields@[j as int]);
            assert(rest.skip(1) =~= fields@.skip(j + 1));
        }
        let key_hit = ids_contain_key(ids, &fields[j].0);
        let d = match int_field(&fields[j].1, "ship_design") {
            Some(d) => d,
            None => -1,
        };
        if key_hit && d == design {
            assert(spec_ship_matches(fields@[j as int], ids@, design as int));
            cnt = cnt + 1;
        } else {
            assert(!spec_ship_matches(fields@[j as int], ids@, design as int));
        }
        j = j + 1;
    }
    cnt
}

/// Projects the ship-size population of a country: gathers the country's
/// ship ids through its owned fleets and, for each, counts the ships of the
/// same design.
pub fn get_country_ships_types(
    country: &Node,
    fleets: &Node,
    ships: &Node,
    ship_designs: &Node,
    name: &str,
    save: &str,
    out: &mut Vec<MetricObservation>,
)
    ensures
        obs_views(final (out)@) == obs_views(old(out)@) + spec_country_ship_types(
            *country,
            *fleets,
            *ships,
            *ship_designs,
            save@,
            name@,
        ),
{
    let ghost start = obs_views(out@);
    let spare: Vec<Node> = Vec::new();
    let owned: &Vec<Node> = match country.get("fleets_manager") {
        Some(fm) => match fm.get("owned_fleets") {
            Some(of) => match of.as_list() {
                Some(items) => items,
                None => &spare,
            },
            None => &spare,
        },
        None => &spare,
    };
    let mut ids: Vec<Option<i64>> = Vec::new();
    let mut j: usize = 0;
    proof {
        assert(owned@.skip(0) =~= owned@);
        assert(ids@ + spec_gather_ship_ids(owned@, *fleets) =~= spec_gather_ship_ids(
            owned@,
            *fleets,
        ));
    }
    while j < owned.len()
        invariant
            j <= owned@.len(),
            ids@ + spec_gather_ship_ids(owned@.skip(j as int), *fleets) == spec_gather_ship_ids(
                owned@,
                *fleets,
            ),
        decreases owned@.len() - j,
    {
        let ghost rest = owned@.skip(j as int);
        let ghost before = ids@;
        proof {
            assert(rest[0] == owned@[j as int]);
            assert(rest.skip(1) =~= owned@.skip(j + 1));
        }
        match int_field(&owned[j], "fleet") {
            Some(fl) => {
                let key = i64_to_string(fl);
                match fleets.get(key.as_str()) {
                    Some(fnode) => match list_field(fnode, "ships") {
                        Some(sh) => {
                            let mut k: usize = 0;
                            proof {
                                assert(ids@ =~= before + spec_ints_of(sh@).take(0));
                            }
                            while k < sh.len()
                                invariant
                                    k <= sh@.len(),
                                    ids@ == before + spec_ints_of(sh@).take(k as int),
                                decreases sh@.len() - k,
                            {
                                ids.push(sh[k].as_int());
                                k = k + 1;
                                proof {
                                    assert(ids@ =~= before + spec_ints_of(sh@).take(k as int));
                                }
                            }
                            proof {
                                assert(spec_ints_of(sh@).take(sh@.len() as int) =~= spec_ints_of(
                                    sh@,
                                ));
                            }
                        },
                        None => {},
                    },
                    None => {},
                }
            },
            None => {},
        }
        j = j + 1;
        proof {
            assert(ids@ + spec_gather_ship_ids(owned@.skip(j as int), *fleets)
                =~= spec_gather_ship_ids(owned@, *fleets));
        }
    }
    proof {
        assert(owned@.skip(owned@.len() as int) =~= Seq::<Node>::empty());
        assert(ids@ == spec_gather_ship_ids(owned@, *fleets));
    }
    let spare_fields: Vec<(String, Node)> = Vec::new();
    let ship_fields: &Vec<(String, Node)> = match ships.as_object() {
        Some(fs) => fs,
        None => &spare_fields,
    };
    assert(ship_fields@ == spec_ship_fields(*ships));
    let ghost goal = spec_country_ship_types(
        *country,
        *fleets,
        *ships,
        *ship_designs,
        save@,
        name@,
    );
    let mut idx: usize = 0;
    proof {
        assert(goal.len() == ids@.len());
        assert forall|i: int| 0 <= i < ids@.len() implies #[trigger] goal[i] == spec_ship_obs(
            ids@[i],
            *ships,
            *ship_designs,
            ids@,
            save@,
            name@,
        ) by {}
        assert(obs_views(out@) =~= start + goal.take(0));
    }
    while idx < ids.len()
        invariant
            idx <= ids@.len(),
            ship_fields@ == spec_ship_fields(*ships),
            goal.len() == ids@.len(),
            forall|i: int|
                0 <= i < ids@.len() ==> #[trigger] goal[i] == spec_ship_obs(
                    ids@[i],
                    *ships,
                    *ship_designs,
                    ids@,
                    save@,
                    name@,
                ),
            obs_views(out@) == start + goal.take(idx as int),
        decreases ids@.len() - idx,
    {
        let id: i64 = match ids[idx] {
            Some(i) => i,
            None => 0,
        };
        let d = design_of(ships, id);
        let size = size_of(ship_designs, d);
        let cnt = count_design(ship_fields, &ids, d);
        let v = fixed_from_len(cnt);
        let mut labels: Vec<String> = Vec::new();
        labels.push(save.to_owned());
        labels.push(name.to_owned());
        labels.push(size);
        proof {
            assert(string_views(labels@) =~= seq![save@, name@, spec_size_of(
                *ship_designs,
                d as int,
            )]);
        }
        emit(out, MetricId::CountryShipSizes, labels, v);
        idx = idx + 1;
        proof {
            assert(goal[idx - 1] == spec_ship_obs(
                ids@[idx - 1],
                *ships,
                *ship_designs,
                ids@,
                save@,
                name@,
            ));
            assert(goal.take(idx as int) =~= goal.take(idx - 1).push(goal[idx - 1]));
            assert(obs_views(out@) =~= start + goal.take(idx as int));
        }
    }
    proof {
        assert(goal.take(goal.len() as int) =~= goal);
    }
}

/// The display name of a country: its `name` template resolved, or the
/// country's collection key when it has none.
pub open spec fn spec_country_name_of(
    country: Node,
    key: Seq<char>,
    cat: Map<Seq<char>, Seq<char>>,
) -> Seq<char> {
    match spec_get(country, "name"@) {
        Some(nm) => spec_resolve(nm, cat, RESOLVE_FUEL as nat),
        None => key,
    }
}

/// The ship-size observations of a country, present only when the document
/// carries the fleet, design, and ship collections as objects.
pub open spec fn spec_ships_if_present(
    country: Node,
    gm: Node,
    save: Seq<char>,
    name: Seq<char>,
) -> Seq<ObsView> {
    if spec_obj_field(gm, "fleet"@) is Some && spec_obj_field(gm, "ship_design"@) is Some
        && spec_obj_field(gm, "ships"@) is Some {
        spec_country_ship_types(
            country,
            spec_get(gm, "fleet"@)->Some_0,
            spec_get(gm, "ships"@)->Some_0,
            spec_get(gm, "ship_design"@)->Some_0,
            save,
            name,
        )
    } else {
        Seq::empty()
    }
}

/// The scalar-field observations of a country: powers, fleet count,
/// balances, and victory status, in order.
pub open spec fn spec_country_scalar_obs(
    country: Node,
    save: Seq<char>,
    name: Seq<char>,
) -> Seq<ObsView> {
    spec_country_powers(country, save, name) + spec_country_fleets(country, save, name)
        + spec_country_balance(country, save, name) + spec_country_victory(country, save, name)
}

/// The list-count observations of a country: war allies, controlled
/// bodies, colonized planets, and surveyed systems, in order.
pub open spec fn spec_country_len_obs(
    country: Node,
    save: Seq<char>,
    name: Seq<char>,
) -> Seq<ObsView> {
    spec_len_part(country, save, name, "war_allies"@, MetricId::CountryWarAllies) + spec_len_part(
        country,
        save,
        name,
        "controlled_planets"@,
        MetricId::CountryControlledCelestialBodies,
    ) + spec_len_part(country, save, name, "owned_planets"@, MetricId::CountryColonizedPlanets)
        + spec_len_part(country, save, name, "surveyed"@, MetricId::CountrySurveyedSystems)
}

/// Everything one country entry contributes: an entry whose value is not an
/// object contributes nothing; otherwise each field family is projected in
/// a fixed order, labeled with the country's resolved display name.
pub open spec fn spec_one_country(
    entry: (String, Node),
    gm: Node,
    cat: Map<Seq<char>, Seq<char>>,
    save: Seq<char>,
) -> Seq<ObsView> {
    let country = entry.1;
    if spec_as_object(country) is None {
        Seq::empty()
    } else {
        let name = spec_country_name_of(country, entry.0@, cat);
        spec_country_scalar_obs(country, save, name) + spec_country_len_obs(country, save, name)
            + spec_ships_if_present(country, gm, save, name)
    }
}

/// The observations of a sequence of country entries, in order.
pub open spec fn spec_countries_fold(
    fields: Seq<(String, Node)>,
    gm: Node,
    cat: Map<Seq<char>, Seq<char>>,
    save: Seq<char>,
) -> Seq<ObsView>
    decreases fields.len(),
{
    if fields.len() == 0 {
        Seq::empty()
    } else {
        spec_one_country(fields[0], gm, cat, save) + spec_countries_fold(
            fields.skip(1),
            gm,
            cat,
            save,
        )
    }
}

/// The country observations of a whole document: nothing unless its
/// `country` collection is an object.
pub open spec fn spec_country_infos(
    gm: Node,
    cat: Map<Seq<char>, Seq<char>>,
    save: Seq<char>,
) -> Seq<ObsView> {
    match spec_obj_field(gm, "country"@) {
        Some(fields) => spec_countries_fold(fields, gm, cat, save),
        None => Seq::empty(),
    }
}

fn project_country_scalars(
    country: &Node,
    name: &str,
    save: &str,
    out: &mut Vec<MetricObservation>,
)
    ensures
        obs_views(final (out)@) == obs_views(old(out)@) + spec_country_scalar_obs(
            *country,
            save@,
            name@,
        ),
{
    let ghost before = obs_views(out@);
    get_country_powers(country, name, save, out);
    get_country_fleets(country, name, save, out);
    get_country_balance(country, name, save, out);
    get_country_victory_score_n_rank(country, name, save, out);
    proof {
        assert(obs_views(out@) =~= before + spec_country_scalar_obs(*country, save@, name@));
    }
}

fn project_country_lens(
    country: &Node,
    name: &str,
    save: &str,
    out: &mut Vec<MetricObservation>,
)
    ensures
        obs_views(final (out)@) == obs_views(old(out)@) + spec_country_len_obs(
            *country,
            save@,
            name@,
        ),
{
    let ghost before = obs_views(out@);
    get_country_war_allies(country, name, save, out);
    get_country_controlled_celestial_bodies(country, name, save, out);
    get_country_colonized_planets(country, name, save, out);
    get_country_surveyed_systems(country, name, save, out);
    proof {
        assert(obs_views(out@) =~= before + spec_country_len_obs(*country, save@, name@));
    }
}

fn project_country_ships(
    country: &Node,
    gm: &Node,
    name: &str,
    save: &str,
    out: &mut Vec<MetricObservation>,
)
    ensures
        obs_views(final (out)@) == obs_views(old(out)@) + spec_ships_if_present(
            *country,
            *gm,
            save@,
            name@,
        ),
{
    let ghost before = obs_views(out@);
    let ships_present: bool = {
        let a = match gm.get("fleet") {
            Some(x) => x.as_object().is_some(),
            None => false,
        };
        let b = match gm.get("ship_design") {
            Some(x) => x.as_object().is_some(),
            None => false,
        };
        let c = match gm.get("ships") {
            Some(x) => x.as_object().is_some(),
            None => false,
        };
        a && b && c
    };
    if ships_present {
        let fl = match gm.get("fleet") {
            Some(x) => x,
            None => country,
        };
        let sd = match gm.get("ship_design") {
            Some(x) => x,
            None => country,
        };
        let sh = match gm.get("ships") {
            Some(x) => x,
            None => country,
        };
        get_country_ships_types(country, fl, sh, sd, name, save, out);
    } else {
        proof {
            assert(spec_ships_if_present(*country, *gm, save@, name@)
                =~= Seq::<ObsView>::empty());
            assert(obs_views(out@) =~= before + spec_ships_if_present(
                *country,
                *gm,
                save@,
                name@,
            ));
        }
    }
}

/// Projects one country entry.
fn project_one_country(
    key: &String,
    country: &Node,
    gm: &Node,
    catalog: &Catalog,
    save: &str,
    out: &mut Vec<MetricObservation>,
)
    ensures
        obs_views(final (out)@) == obs_views(old(out)@) + spec_one_country(
            (*key, *country),
            *gm,
            catalog@,
            save@,
        ),
{
    let ghost before = obs_views(out@);
    if country.as_object().is_some() {
        let name: String = match country.get("name") {
            Some(nm) => resolve(nm, catalog),
            None => key.clone(),
        };
        let ghost nv = spec_country_name_of(*country, key@, catalog@);
        assert(name@ == nv);
        project_country_scalars(country, name.as_str(), save, out);
        project_country_lens(country, name.as_str(), save, out);
        project_country_ships(country, gm, name.as_str(), save, out);
        proof {
            assert(obs_views(out@) =~= before + spec_one_country(
                (*key, *country),
                *gm,
                catalog@,
                save@,
            ));
        }
    } else {
        proof {
            assert(spec_one_country((*key, *country), *gm, catalog@, save@)
                =~= Seq::<ObsView>::empty());
        }
    }
}

/// Projects every country of the document: powers, fleets, balance, victory
/// status, war allies, controlled and colonized bodies, surveyed systems,
/// and ship sizes, each labeled with the country's resolved name.
pub fn get_country_infos(
    gm: &Node,
    save: &str,
    catalog: &Catalog,
    out: &mut Vec<MetricObservation>,
)
    ensures
        obs_views(final (out)@) == obs_views(old(out)@) + spec_country_infos(
            *gm,
            catalog@,
            save@,
        ),
{
    let ghost start = obs_views(out@);
    match obj_field(gm, "country") {
        Some(fields) => {
            let mut i: usize = 0;
            proof {
                assert(fields@.skip(0) =~= fields@);
            }
            while i < fields.len()
                invariant
                    i <= fields@.len(),
                    obs_views(out@) + spec_countries_fold(
                        fields@.skip(i as int),
                        *gm,
                        catalog@,
                        save@,
                    ) == start + spec_countries_fold(fields@, *gm, catalog@, save@),
                decreases fields@.len() - i,
            {
                let ghost rest = fields@.skip(i as int);
                let ghost before = obs_views(out@);
                proof {
                    assert(rest[0] == fields@[i as int]);
                    assert(rest.skip(1) =~= fields@.skip(i + 1));
                }
                project_one_country(&fields[i].0, &fields[i].1, gm, catalog, save, out);
                proof {
                    assert((fields@[i as int].0, fields@[i as int].1) == fields@[i as int]);
                }
                i = i + 1;
                proof {
                    assert(obs_views(out@) + spec_countries_fold(
                        fields@.skip(i as int),
                        *gm,
                        catalog@,
                        save@,
                    ) =~= start + spec_countries_fold(fields@, *gm, catalog@, save@));
                }
            }
            proof {
                assert(fields@.skip(fields@.len() as int) =~= Seq::<(String, Node)>::empty());
                assert(obs_views(out@) =~= start + spec_country_infos(*gm, catalog@, save@));
            }
        },
        None => {
            proof {
                assert(obs_views(out@) =~= start + spec_country_infos(*gm, catalog@, save@));
            }
        },
    }
}

/// The country a decimal id names in the document's country collection.
pub open spec fn spec_country_by_id(gm: Node, id: int) -> Option<Node> {
    match spec_get(gm, "country"@) {
        Some(cs) => spec_get(cs, spec_int_chars(id)),
        None => None,
    }
}

/// Looks a country up by its numeric identifier.
pub fn get_country_by_id<'a>(gm: &'a Node, id: i64) -> (r: Option<&'a Node>)
    ensures
        match r {
            Some(c) => spec_country_by_id(*gm, id as int) == Some(*c),
            None => spec_country_by_id(*gm, id as int) is None,
        },
{
    match gm.get("country") {
        Some(cs) => {
            let key = i64_to_string(id);
            cs.get(key.as_str())
        },
        None => None,
    }
}

/// The resolved display name of a country, when it carries one.
pub open spec fn spec_country_name(country: Node, cat: Map<Seq<char>, Seq<char>>) -> Option<
    Seq<char>,
> {
    match spec_get(country, "name"@) {
        Some(nm) => Some(spec_resolve(nm, cat, RESOLVE_FUEL as nat)),
        None => None,
    }
}

/// Resolves a country's display name; nothing without a `name` field.
pub fn get_country_name(country: &Node, catalog: &Catalog) -> (r: Option<String>)
    ensures
        match r {
            Some(s) => spec_country_name(*country, catalog@) == Some(s@),
            None => spec_country_name(*country, catalog@) is None,
        },
{
    match country.get("name") {
        Some(nm) => Some(resolve(nm, catalog)),
        None => None,
    }
}

/// The resolved name of the country a collection key names.
pub open spec fn spec_country_name_by_id(
    gm: Node,
    id: Seq<char>,
    cat: Map<Seq<char>, Seq<char>>,
) -> Option<Seq<char>> {
    match spec_get(gm, "country"@) {
        Some(cs) => match spec_get(cs, id) {
            Some(c) => spec_country_name(c, cat),
            None => None,
        },
        None => None,
    }
}

/// Resolves the display name of the country a collection key names.
pub fn get_country_name_by_id(gm: &Node, id: &str, catalog: &Catalog) -> (r: Option<String>)
    ensures
        match r {
            Some(s) => spec_country_name_by_id(*gm, id@, catalog@) == Some(s@),
            None => spec_country_name_by_id(*gm, id@, catalog@) is None,
        },
{
    match gm.get("country") {
        Some(cs) => match cs.get(id) {
            Some(c) => get_country_name(c, catalog),
            None => None,
        },
        None => None,
    }
}

/// Whether a belligerent entry is marked as the primary party.
pub open spec fn spec_is_primary(e: Node) -> bool {
    spec_text_field(e, "call_type"@) == Some("primary"@)
}

/// The index of the first belligerent entry whose `call_type` is `primary`,
/// if any: the tie-break rule for choosing each side's main party.
pub open spec fn spec_first_primary(entries: Seq<Node>) -> Option<int>
    decreases entries.len(),
{
    if entries.len() == 0 {
        None
    } else if spec_is_primary(entries[0]) {
        Some(0)
    } else {
        match spec_first_primary(entries.skip(1)) {
            Some(i) => Some(i + 1),
            None => None,
        }
    }
}

/// The country id of a side's primary belligerent: the first `primary`
/// entry's `country` number. Nothing when no entry is primary, and nothing
/// when the primary entry carries no country number — no later entry is
/// consulted in its place.
pub open spec fn spec_primary_country(entries: Seq<Node>) -> Option<int> {
    match spec_first_primary(entries) {
        Some(i) => spec_int_field(entries[i], "country"@),
        None => None,
    }
}

proof fn lemma_first_primary_at(entries: Seq<Node>, i: int)
    requires
        0 <= i < entries.len(),
        spec_is_primary(entries[i]),
        forall|k: int| 0 <= k < i ==> !spec_is_primary(#[trigger] entries[k]),
    ensures
        spec_first_primary(entries) == Some(i),
    decreases i,
{
    if i > 0 {
        lemma_first_primary_at(entries.skip(1), i - 1);
    }
}

proof fn lemma_first_primary_none(entries: Seq<Node>)
    requires
        forall|k: int| 0 <= k < entries.len() ==> !spec_is_primary(#[trigger] entries[k]),
    ensures
        spec_first_primary(entries) is None,
    decreases entries.len(),
{
    if entries.len() > 0 {
        lemma_first_primary_none(entries.skip(1));
    }
}

/// Finds the first belligerent entry marked `primary`.
pub fn find_primary(entries: &Vec<Node>) -> (r: Option<usize>)
    ensures
        match r {
            Some(i) => i < entries@.len() && spec_first_primary(entries@) == Some(i as int),
            None => spec_first_primary(entries@) is None,
        },
{
    let mut j: usize = 0;
    while j < entries.len()
        invariant
            j <= entries@.len(),
            forall|k: int| 0 <= k < j ==> !spec_is_primary(#[trigger] entries@[k]),
        decreases entries@.len() - j,
    {
        let hit = match text_field(&entries[j], "call_type") {
            Some(t) => str_eq(t.as_str(), "primary"),
            None => false,
        };
        if hit {
            proof {
                lemma_first_primary_at(entries@, j as int);
            }
            return Some(j);
        }
        j = j + 1;
    }
    proof {
        lemma_first_primary_none(entries@);
    }
    None
}

fn primary_country(entries: &Vec<Node>) -> (r: Option<i64>)
    ensures
        match r {
            Some(c) => spec_primary_country(entries@) == Some(c as int),
            None => spec_primary_country(entries@) is None,
        },
{
    match find_primary(entries) {
        Some(i) => int_field(&entries[i], "country"),
        None => None,
    }
}

/// The rendered war goal of a side: the `type` of its goal field, prefixed
/// and rendered against the catalog. Nothing without a textual goal type.
pub open spec fn spec_war_goal(
    war: Node,
    field: Seq<char>,
    cat: Map<Seq<char>, Seq<char>>,
) -> Option<Seq<char>> {
    match spec_get(war, field) {
        Some(g) => match spec_text_field(g, "type"@) {
            Some(t) => Some(crate::resolver::spec_render_name("war_goal_"@ + t, cat)),
            None => None,
        },
        None => None,
    }
}

fn war_goal(war: &Node, field: &str, catalog: &Catalog) -> (r: Option<String>)
    ensures
        match r {
            Some(s) => spec_war_goal(*war, field@, catalog@) == Some(s@),
            None => spec_war_goal(*war, field@, catalog@) is None,
        },
{
    match war.get(field) {
        Some(g) => match text_field(g, "type") {
            Some(t) => {
                let mut k: String = "war_goal_".to_owned();
                k.append(t.as_str());
                Some(crate::resolver::render_name(k, catalog))
            },
            None => None,
        },
        None => None,
    }
}

/// The observation one war entry contributes: exactly one battle-count
/// observation when the war carries a name, a start date, goal types on
/// both sides, a primary belligerent with a country number on both sides,
/// and both countries exist in the document; nothing otherwise. Each
/// side's label is its country's resolved name, or its country number when
/// the country has no name.
pub open spec fn spec_war_obs(
    id: Seq<char>,
    war: Node,
    gm: Node,
    cat: Map<Seq<char>, Seq<char>>,
    save: Seq<char>,
) -> Seq<ObsView> {
    let name_node = spec_get(war, "name"@);
    let date = spec_text_field(war, "start_date"@);
    let m_att = match spec_list_field(war, "attackers"@) {
        Some(a) => spec_primary_country(a),
        None => None,
    };
    let m_def = match spec_list_field(war, "defenders"@) {
        Some(d) => spec_primary_country(d),
        None => None,
    };
    let att_goal = spec_war_goal(war, "attacker_war_goal"@, cat);
    let def_goal = spec_war_goal(war, "defender_war_goal"@, cat);
    if name_node is Some && date is Some && m_att is Some && m_def is Some && att_goal is Some
        && def_goal is Some {
        match (
            spec_country_by_id(gm, m_att->Some_0),
            spec_country_by_id(gm, m_def->Some_0),
        ) {
            (Some(ca), Some(cd)) => {
                let att_label = match spec_country_name(ca, cat) {
                    Some(s) => s,
                    None => spec_int_chars(m_att->Some_0),
                };
                let def_label = match spec_country_name(cd, cat) {
                    Some(s) => s,
                    None => spec_int_chars(m_def->Some_0),
                };
                let battles: int = match spec_list_field(war, "battles"@) {
                    Some(b) => b.len() as int,
                    None => 0,
                };
                seq![
                    ObsView {
                        metric: MetricId::CountryWarBattles,
                        labels: seq![
                            save,
                            att_label,
                            def_label,
                            att_goal->Some_0,
                            def_goal->Some_0,
                            spec_resolve(name_node->Some_0, cat, RESOLVE_FUEL as nat),
                            date->Some_0,
                            id,
                        ],
                        value: spec_fixed_from_int(battles),
                    },
                ]
            },
            _ => Seq::empty(),
        }
    } else {
        Seq::empty()
    }
}

/// The war observations of a sequence of war entries, in order.
pub open spec fn spec_wars_fold(
    fields: Seq<(String, Node)>,
    gm: Node,
    cat: Map<Seq<char>, Seq<char>>,
    save: Seq<char>,
) -> Seq<ObsView>
    decreases fields.len(),
{
    if fields.len() == 0 {
        Seq::empty()
    } else {
        spec_war_obs(fields[0].0@, fields[0].1, gm, cat, save) + spec_wars_fold(
            fields.skip(1),
            gm,
            cat,
            save,
        )
    }
}

/// The war observations of a whole document: nothing unless its `war`
/// collection is an object.
pub open spec fn spec_wars(gm: Node, cat: Map<Seq<char>, Seq<char>>, save: Seq<char>) -> Seq<
    ObsView,
> {
    match spec_obj_field(gm, "war"@) {
        Some(fields) => spec_wars_fold(fields, gm, cat, save),
        None => Seq::empty(),
    }
}

/// Projects one war entry.
#[verifier::rlimit(100)]
#[verifier::spinoff_prover]
fn project_one_war(
    id: &String,
    war: &Node,
    gm: &Node,
    catalog: &Catalog,
    save: &str,
    out: &mut Vec<MetricObservation>,
)
    ensures
        obs_views(final (out)@) == obs_views(old(out)@) + spec_war_obs(
            id@,
            *war,
            *gm,
            catalog@,
            save@,
        ),
{
    let ghost before = obs_views(out@);
    let ghost target = spec_war_obs(id@, *war, *gm, catalog@, save@);
    let name_node = war.get("name");
    let date = text_field(war, "start_date");
    let m_att: Option<i64> = match list_field(war, "attackers") {
        Some(a) => primary_country(a),
        None => None,
    };
    let m_def: Option<i64> = match list_field(war, "defenders") {
        Some(d) => primary_country(d),
        None => None,
    };
    let att_goal = war_goal(war, "attacker_war_goal", catalog);
    let def_goal = war_goal(war, "defender_war_goal", catalog);
    if let (Some(nm), Some(dt), Some(ma), Some(md), Some(ag), Some(dg)) = (
        name_node,
        date,
        m_att,
        m_def,
        att_goal,
        def_goal,
    ) {
        let ca = get_country_by_id(gm, ma);
        let cd = get_country_by_id(gm, md);
        if let (Some(can), Some(cdn)) = (ca, cd) {
            let att_label: String = match get_country_name(can, catalog) {
                Some(s) => s,
                None => i64_to_string(ma),
            };
            let def_label: String = match get_country_name(cdn, catalog) {
                Some(s) => s,
                None => i64_to_string(md),
            };
            let battles: usize = match list_field(war, "battles") {
                Some(b) => b.len(),
                None => 0,
            };
            let war_name = resolve(nm, catalog);
            let mut labels: Vec<String> = Vec::new();
            labels.push(save.to_owned());
            labels.push(att_label);
            labels.push(def_label);
            labels.push(ag);
            labels.push(dg);
            labels.push(war_name);
            labels.push(dt.clone());
            labels.push(id.clone());
            let v = fixed_from_len(battles);
            proof {
                assert(target.len() == 1);
                assert(string_views(labels@) =~= target[0].labels);
            }
            emit(out, MetricId::CountryWarBattles, labels, v);
            proof {
                assert(obs_views(out@) =~= before + target);
            }
        } else {
            proof {
                assert(target =~= Seq::<ObsView>::empty());
            }
        }
    } else {
        proof {
            assert(target =~= Seq::<ObsView>::empty());
        }
    }
}

/// Projects every war of the document: one battle-count observation per
/// war whose primary belligerents, goals, name, and date are all present.
pub fn get_wars(gm: &Node, save: &str, catalog: &Catalog, out: &mut Vec<MetricObservation>)
    ensures
        obs_views(final (out)@) == obs_views(old(out)@) + spec_wars(*gm, catalog@, save@),
{
    let ghost start = obs_views(out@);
    match obj_field(gm, "war") {
        Some(fields) => {
            let mut i: usize = 0;
            proof {
                assert(fields@.skip(0) =~= fields@);
            }
            while i < fields.len()
                invariant
                    i <= fields@.len(),
                    obs_views(out@) + spec_wars_fold(
                        fields@.skip(i as int),
                        *gm,
                        catalog@,
                        save@,
                    ) == start + spec_wars_fold(fields@, *gm, catalog@, save@),
                decreases fields@.len() - i,
            {
                let ghost rest = fields@.skip(i as int);
                proof {
                    assert(rest[0] == fields@[i as int]);
                    assert(rest.skip(1) =~= fields@.skip(i + 1));
                }
                project_one_war(&fields[i].0, &fields[i].1, gm, catalog, save, out);
                i = i + 1;
                proof {
                    assert(obs_views(out@) + spec_wars_fold(
                        fields@.skip(i as int),
                        *gm,
                        catalog@,
                        save@,
                    ) =~= start + spec_wars_fold(fields@, *gm, catalog@, save@));
                }
            }
            proof {
                assert(fields@.skip(fields@.len() as int) =~= Seq::<(String, Node)>::empty());
                assert(obs_views(out@) =~= start + spec_wars(*gm, catalog@, save@));
            }
        },
        None => {
            proof {
                assert(obs_views(out@) =~= start + spec_wars(*gm, catalog@, save@));
            }
        },
    }
}

/// Whether two megastructure entries match: their type texts agree and
/// their owner numbers agree, an absent or non-matching field agreeing
/// only with an equally absent one.
pub open spec fn spec_mega_matches(
    f: (String, Node),
    t: Option<Seq<char>>,
    o: Option<int>,
) -> bool {
    spec_text_field(f.1, "type"@) == t && spec_int_field(f.1, "owner"@) == o
}

/// How many megastructure entries match the given type and owner.
pub open spec fn spec_count_mega(
    fields: Seq<(String, Node)>,
    t: Option<Seq<char>>,
    o: Option<int>,
) -> nat
    decreases fields.len(),
{
    if fields.len() == 0 {
        0
    } else {
        (if spec_mega_matches(fields[0], t, o) {
            1nat
        } else {
            0nat
        }) + spec_count_mega(fields.skip(1), t, o)
    }
}

/// The observation one megastructure entry contributes: the count of
/// structures of the same type and owner, labeled with the rendered type
/// and the owner's resolved name — or the owner number when the owner is
/// unknown, minus one standing for an absent owner.
pub open spec fn spec_mega_obs(
    m: Node,
    fields: Seq<(String, Node)>,
    gm: Node,
    cat: Map<Seq<char>, Seq<char>>,
    save: Seq<char>,
) -> ObsView {
    let owner: int = match spec_int_field(m, "owner"@) {
        Some(i) => i,
        None => -1,
    };
    let owner_label = match spec_country_name_by_id(gm, spec_int_chars(owner), cat) {
        Some(s) => s,
        None => spec_int_chars(owner),
    };
    let name: Seq<char> = match spec_text_field(m, "type"@) {
        Some(t) => crate::resolver::spec_render_name(t, cat),
        None => Seq::empty(),
    };
    let cnt = spec_count_mega(fields, spec_text_field(m, "type"@), spec_int_field(m, "owner"@));
    ObsView {
        metric: MetricId::Megastructures,
        labels: seq![save, name, owner_label],
        value: spec_fixed_from_int(cnt as int),
    }
}

/// The megastructure observations of a whole document: one per entry of
/// its `megastructures` object.
pub open spec fn spec_megastructures(
    gm: Node,
    cat: Map<Seq<char>, Seq<char>>,
    save: Seq<char>,
) -> Seq<ObsView> {
    match spec_obj_field(gm, "megastructures"@) {
        Some(fields) => Seq::new(
            fields.len(),
            |i: int| spec_mega_obs(fields[i].1, fields, gm, cat, save),
        ),
        None => Seq::empty(),
    }
}

fn count_mega(fields: &Vec<(String, Node)>, m: &Node) -> (r: usize)
    ensures
        r == spec_count_mega(
            fields@,
            spec_text_field(*m, "type"@),
            spec_int_field(*m, "owner"@),
        ),
{
    let ghost t = spec_text_field(*m, "type"@);
    let ghost o = spec_int_field(*m, "owner"@);
    let mut cnt: usize = 0;
    let mut j: usize = 0;
    proof {
        assert(fields@.skip(0) =~= fields@);
    }
    while j < fields.len()
        invariant
            j <= fields@.len(),
            cnt <= j,
            t == spec_text_field(*m, "type"@),
            o == spec_int_field(*m, "owner"@),
            cnt + spec_count_mega(fields@.skip(j as int), t, o) == spec_count_mega(
                fields@,
                t,
                o,
            ),
        decreases fields@.len() - j,
    {
        let ghost rest = fields@.skip(j as int);
        proof {
            assert(rest[0] == fields@[j as int]);
            assert(rest.skip(1) =~= fields@.skip(j + 1));
        }
        let type_hit: bool = match (text_field(&fields[j].1, "type"), text_field(m, "type")) {
            (Some(a), Some(b)) => str_eq(a.as_str(), b.as_str()),
            (None, None) => true,
            _ => false,
        };
        let owner_hit: bool = match (int_field(&fields[j].1, "owner"), int_field(m, "owner")) {
            (Some(a), Some(b)) => a == b,
            (None, None) => true,
            _ => false,
        };
        if type_hit && owner_hit {
            assert(spec_mega_matches(fields@[j as int], t, o));
            cnt = cnt + 1;
        } else {
            assert(!spec_mega_matches(fields@[j as int], t, o));
        }
        j = j + 1;
    }
    cnt
}

/// Projects one megastructure entry.
#[verifier::rlimit(100)]
#[verifier::spinoff_prover]
fn project_one_mega(
    m: &Node,
    fields: &Vec<(String, Node)>,
    gm: &Node,
    catalog: &Catalog,
    save: &str,
    out: &mut Vec<MetricObservation>,
)
    ensures
        obs_views(final (out)@) == obs_views(old(out)@).push(
            spec_mega_obs(*m, fields@, *gm, catalog@, save@),
        ),
{
    let owner: i64 = match int_field(m, "owner") {
        Some(i) => i,
        None => -1,
    };
    let owner_key = i64_to_string(owner);
    let owner_label: String = match get_country_name_by_id(gm, owner_key.as_str(), catalog) {
        Some(s) => s,
        None => owner_key,
    };
    let name: String = match text_field(m, "type") {
        Some(t) => crate::resolver::render_name(t.clone(), catalog),
        None => String::new(),
    };
    let cnt = count_mega(fields, m);
    let v = fixed_from_len(cnt);
    let mut labels: Vec<String> = Vec::new();
    labels.push(save.to_owned());
    labels.push(name);
    labels.push(owner_label);
    proof {
        assert(string_views(labels@) =~= spec_mega_obs(*m, fields@, *gm, catalog@, save@).labels);
    }
    emit(out, MetricId::Megastructures, labels, v);
}

/// Projects every megastructure of the document: one same-type-same-owner
/// count per entry, labeled with the rendered type and the owner's name.
pub fn get_megastructures(
    gm: &Node,
    save: &str,
    catalog: &Catalog,
    out: &mut Vec<MetricObservation>,
)
    ensures
        obs_views(final (out)@) == obs_views(old(out)@) + spec_megastructures(
            *gm,
            catalog@,
            save@,
        ),
{
    let ghost start = obs_views(out@);
    let ghost goal = spec_megastructures(*gm, catalog@, save@);
    match obj_field(gm, "megastructures") {
        Some(fields) => {
            let mut i: usize = 0;
            proof {
                assert(goal.len() == fields@.len());
                assert(obs_views(out@) =~= start + goal.take(0));
            }
            while i < fields.len()
                invariant
                    i <= fields@.len(),
                    goal == spec_megastructures(*gm, catalog@, save@),
                    spec_obj_field(*gm, "megastructures"@) == Some(fields@),
                    goal.len() == fields@.len(),
                    obs_views(out@) == start + goal.take(i as int),
                decreases fields@.len() - i,
            {
                project_one_mega(&fields[i].1, fields, gm, catalog, save, out);
                i = i + 1;
                proof {
                    assert(goal[i - 1] == spec_mega_obs(
                        fields@[i - 1].1,
                        fields@,
                        *gm,
                        catalog@,
                        save@,
                    ));
                    assert(goal.take(i as int) =~= goal.take(i - 1).push(goal[i - 1]));
                    assert(obs_views(out@) =~= start + goal.take(i as int));
                }
            }
            proof {
                assert(goal.take(goal.len() as int) =~= goal);
            }
        },
        None => {
            proof {
                assert(obs_views(out@) =~= start + goal);
            }
        },
    }
}

/// Missing fields do not propagate: when a country's `military_power`
/// field does not read as a number, the power projection is exactly the
/// tech and economic parts — no observation carries the `military` kind —
/// and every other field family of the country is projected as before,
/// since each reads only its own fields.
pub proof fn lemma_missing_field_non_propagation(country: Node, save: Seq<char>, name: Seq<char>)
    requires
        spec_num_field(country, "military_power"@) is None,
    ensures
        spec_country_powers(country, save, name) == spec_power_part(
            country,
            save,
            name,
            "tech_power"@,
            "tech"@,
        ) + spec_power_part(country, save, name, "economy_power"@, "economic"@),
        forall|i: int|
            0 <= i < spec_country_powers(country, save, name).len() ==> (
            #[trigger] spec_country_powers(country, save, name)[i]).labels[1] != "military"@,
        spec_country_scalar_obs(country, save, name) == spec_country_powers(country, save, name)
            + spec_country_fleets(country, save, name) + spec_country_balance(
            country,
            save,
            name,
        ) + spec_country_victory(country, save, name),
{
    assert(spec_power_part(country, save, name, "military_power"@, "military"@)
        =~= Seq::<ObsView>::empty());
    assert(spec_country_powers(country, save, name) =~= spec_power_part(
        country,
        save,
        name,
        "tech_power"@,
        "tech"@,
    ) + spec_power_part(country, save, name, "economy_power"@, "economic"@));
    assert forall|i: int|
        0 <= i < spec_country_powers(country, save, name).len() implies (
    #[trigger] spec_country_powers(country, save, name)[i]).labels[1] != "military"@ by {
        reveal_strlit("military");
        reveal_strlit("tech");
        reveal_strlit("economic");
        let ps = spec_country_powers(country, save, name);
        assert(ps[i].labels[1] == "tech"@ || ps[i].labels[1] == "economic"@);
        assert("tech"@.len() == 4 && "military"@.len() == 8 && "economic"@.len() == 8);
        assert("economic"@[0] == 'e' && "military"@[0] == 'm');
        assert("tech"@ != "military"@);
        assert("economic"@ != "military"@);
    }
}

/// The tie-break rule never guesses: a war whose attacker side has no
/// entry in the `primary` role yields no battle-count observation at all.
pub proof fn lemma_war_without_primary(
    id: Seq<char>,
    war: Node,
    gm: Node,
    cat: Map<Seq<char>, Seq<char>>,
    save: Seq<char>,
)
    requires
        match spec_list_field(war, "attackers"@) {
            Some(a) => spec_first_primary(a) is None,
            None => true,
        },
    ensures
        spec_war_obs(id, war, gm, cat, save) == Seq::<ObsView>::empty(),
{
}

proof fn lemma_wf_concat(a: Seq<ObsView>, b: Seq<ObsView>)
    requires
        all_obs_wf(a),
        all_obs_wf(b),
    ensures
        all_obs_wf(a + b),
{
    assert forall|i: int| 0 <= i < (a + b).len() implies obs_wf(#[trigger] (a + b)[i]) by {
        if i < a.len() {
            assert((a + b)[i] == a[i]);
        } else {
            assert((a + b)[i] == b[i - a.len()]);
        }
    }
}

proof fn lemma_balance_wf(fields: Seq<(String, Node)>, save: Seq<char>, name: Seq<char>)
    ensures
        all_obs_wf(spec_balance_entries(fields, save, name)),
    decreases fields.len(),
{
    if fields.len() > 0 {
        lemma_balance_wf(fields.skip(1), save, name);
        let head: Seq<ObsView> = match spec_as_number(fields[0].1) {
            Some(v) => seq![
                ObsView {
                    metric: MetricId::CountryBalance,
                    labels: seq![save, name, fields[0].0@],
                    value: v,
                },
            ],
            None => Seq::empty(),
        };
        assert(all_obs_wf(head));
        lemma_wf_concat(head, spec_balance_entries(fields.skip(1), save, name));
    }
}

proof fn lemma_one_country_wf(
    entry: (String, Node),
    gm: Node,
    cat: Map<Seq<char>, Seq<char>>,
    save: Seq<char>,
)
    ensures
        all_obs_wf(spec_one_country(entry, gm, cat, save)),
{
    let country = entry.1;
    if spec_as_object(country) is Some {
        let name = spec_country_name_of(country, entry.0@, cat);
        let p1 = spec_power_part(country, save, name, "military_power"@, "military"@);
        let p2 = spec_power_part(country, save, name, "tech_power"@, "tech"@);
        let p3 = spec_power_part(country, save, name, "economy_power"@, "economic"@);
        assert(all_obs_wf(p1));
        assert(all_obs_wf(p2));
        assert(all_obs_wf(p3));
        lemma_wf_concat(p1, p2);
        lemma_wf_concat(p1 + p2, p3);
        let fleets = spec_country_fleets(country, save, name);
        assert(all_obs_wf(fleets));
        lemma_wf_concat(spec_country_powers(country, save, name), fleets);
        lemma_balance_wf(
            match spec_get(country, "budget"@) {
                Some(b) => match spec_get(b, "income_high_water_mark"@) {
                    Some(h) => match spec_get(h, "current"@) {
                        Some(c) => match spec_as_object(c) {
                            Some(fs) => fs,
                            None => Seq::empty(),
                        },
                        None => Seq::empty(),
                    },
                    None => Seq::empty(),
                },
                None => Seq::empty(),
            },
            save,
            name,
        );
        assert(all_obs_wf(spec_country_balance(country, save, name)));
        lemma_wf_concat(
            spec_country_powers(country, save, name) + fleets,
            spec_country_balance(country, save, name),
        );
        let v1 = spec_victory_part(country, save, name, "victory_rank"@, "rank"@);
        let v2 = spec_victory_part(country, save, name, "victory_score"@, "score"@);
        assert(all_obs_wf(v1));
        assert(all_obs_wf(v2));
        lemma_wf_concat(v1, v2);
        lemma_wf_concat(
            spec_country_powers(country, save, name) + fleets + spec_country_balance(
                country,
                save,
                name,
            ),
            spec_country_victory(country, save, name),
        );
        let l1 = spec_len_part(country, save, name, "war_allies"@, MetricId::CountryWarAllies);
        let l2 = spec_len_part(
            country,
            save,
            name,
            "controlled_planets"@,
            MetricId::CountryControlledCelestialBodies,
        );
        let l3 = spec_len_part(
            country,
            save,
            name,
            "owned_planets"@,
            MetricId::CountryColonizedPlanets,
        );
        let l4 = spec_len_part(country, save, name, "surveyed"@, MetricId::CountrySurveyedSystems);
        assert(all_obs_wf(l1));
        assert(all_obs_wf(l2));
        assert(all_obs_wf(l3));
        assert(all_obs_wf(l4));
        lemma_wf_concat(l1, l2);
        lemma_wf_concat(l1 + l2, l3);
        lemma_wf_concat(l1 + l2 + l3, l4);
        let ships = spec_ships_if_present(country, gm, save, name);
        assert(all_obs_wf(ships));
        lemma_wf_concat(
            spec_country_scalar_obs(country, save, name),
            spec_country_len_obs(country, save, name),
        );
        lemma_wf_concat(
            spec_country_scalar_obs(country, save, name) + spec_country_len_obs(
                country,
                save,
                name,
            ),
            ships,
        );
    }
}

proof fn lemma_countries_fold_wf(
    fields: Seq<(String, Node)>,
    gm: Node,
    cat: Map<Seq<char>, Seq<char>>,
    save: Seq<char>,
)
    ensures
        all_obs_wf(spec_countries_fold(fields, gm, cat, save)),
    decreases fields.len(),
{
    if fields.len() > 0 {
        lemma_one_country_wf(fields[0], gm, cat, save);
        lemma_countries_fold_wf(fields.skip(1), gm, cat, save);
        lemma_wf_concat(
            spec_one_country(fields[0], gm, cat, save),
            spec_countries_fold(fields.skip(1), gm, cat, save),
        );
    }
}

/// Every country observation carries exactly its metric's declared label
/// count: the label-schema invariant of a projection pass.
pub proof fn lemma_country_infos_wf(gm: Node, cat: Map<Seq<char>, Seq<char>>, save: Seq<char>)
    ensures
        all_obs_wf(spec_country_infos(gm, cat, save)),
{
    match spec_obj_field(gm, "country"@) {
        Some(fields) => {
            lemma_countries_fold_wf(fields, gm, cat, save);
        },
        None => {},
    }
}

proof fn lemma_wars_fold_wf(
    fields: Seq<(String, Node)>,
    gm: Node,
    cat: Map<Seq<char>, Seq<char>>,
    save: Seq<char>,
)
    ensures
        all_obs_wf(spec_wars_fold(fields, gm, cat, save)),
    decreases fields.len(),
{
    if fields.len() > 0 {
        assert(all_obs_wf(spec_war_obs(fields[0].0@, fields[0].1, gm, cat, save)));
        lemma_wars_fold_wf(fields.skip(1), gm, cat, save);
        lemma_wf_concat(
            spec_war_obs(fields[0].0@, fields[0].1, gm, cat, save),
            spec_wars_fold(fields.skip(1), gm, cat, save),
        );
    }
}

/// Every war observation carries exactly its metric's declared label
/// count.
pub proof fn lemma_wars_wf(gm: Node, cat: Map<Seq<char>, Seq<char>>, save: Seq<char>)
    ensures
        all_obs_wf(spec_wars(gm, cat, save)),
{
    match spec_obj_field(gm, "war"@) {
        Some(fields) => {
            lemma_wars_fold_wf(fields, gm, cat, save);
        },
        None => {},
    }
}

/// Every megastructure observation carries exactly its metric's declared
/// label count.
pub proof fn lemma_megastructures_wf(gm: Node, cat: Map<Seq<char>, Seq<char>>, save: Seq<char>)
    ensures
        all_obs_wf(spec_megastructures(gm, cat, save)),
{
    match spec_obj_field(gm, "megastructures"@) {
        Some(fields) => {
            assert forall|i: int|
                0 <= i < spec_megastructures(gm, cat, save).len() implies obs_wf(
                #[trigger] spec_megastructures(gm, cat, save)[i]) by {
                assert(spec_megastructures(gm, cat, save)[i] == spec_mega_obs(
                    fields[i].1,
                    fields,
                    gm,
                    cat,
                    save,
                ));
            }
        },
        None => {},
    }
}

} // verus!
