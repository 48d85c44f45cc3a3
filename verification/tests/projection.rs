//! Tests for the metric projector, the observation schema, the snapshot
//! store, and the configuration defaults.

use stellaris_exporter::catalog::Catalog;
use stellaris_exporter::config::{ApiConfig, Config, GamePaths};
use stellaris_exporter::metrics::{label_count, metric_name, MetricId, MetricObservation};
use stellaris_exporter::node::{Node, Scalar};
use stellaris_exporter::numeric::Fixed;
use stellaris_exporter::projector::{
    find_primary, get_country_by_id, get_country_infos, get_country_name, get_country_name_by_id,
    get_country_powers, get_megastructures, get_wars,
};
use stellaris_exporter::store::{get_game_data, is_save_path, set_game_data, GamestateData};

fn text(s: &str) -> Node {
    Node::Scalar(Scalar::Text(s.to_string()))
}

fn whole(i: i64) -> Node {
    Node::Scalar(Scalar::Int(i))
}

fn dec(micros: i64) -> Node {
    Node::Scalar(Scalar::Dec(Fixed { micros }))
}

fn obj(fields: Vec<(&str, Node)>) -> Node {
    Node::Object(fields.into_iter().map(|(k, v)| (k.to_string(), v)).collect())
}

fn literal_name(key: &str) -> Node {
    obj(vec![("key", text(key)), ("literal", text("yes"))])
}

fn catalog_of(entries: Vec<(&str, &str)>) -> Catalog {
    let mut c = Catalog::new();
    for (k, v) in entries {
        c.insert(k.to_string(), v.to_string());
    }
    c
}

fn labels_of(o: &MetricObservation) -> Vec<&str> {
    o.labels.iter().map(|s| s.as_str()).collect()
}

#[test]
fn missing_field_non_propagation() {
    // A country without military power still yields its other
    // observations: tech power and the fleet count.
    let country = obj(vec![
        ("name", literal_name("Empire")),
        ("tech_power", whole(7)),
        (
            "fleets_manager",
            obj(vec![("owned_fleets", Node::List(vec![whole(1), whole(2), whole(3)]))]),
        ),
    ]);
    let gm = obj(vec![("country", obj(vec![("5", country)]))]);
    let cat = catalog_of(vec![]);
    let mut out: Vec<MetricObservation> = Vec::new();
    get_country_infos(&gm, "save1", &cat, &mut out);

    let power: Vec<&MetricObservation> = out
        .iter()
        .filter(|o| o.metric == MetricId::CountryPower)
        .collect();
    assert_eq!(power.len(), 1);
    assert_eq!(labels_of(power[0]), vec!["save1", "tech", "Empire"]);
    assert_eq!(power[0].value, Fixed { micros: 7_000_000 });

    let fleets: Vec<&MetricObservation> = out
        .iter()
        .filter(|o| o.metric == MetricId::CountryFleets)
        .collect();
    assert_eq!(fleets.len(), 1);
    assert_eq!(labels_of(fleets[0]), vec!["save1", "Empire"]);
    assert_eq!(fleets[0].value, Fixed { micros: 3_000_000 });
}

#[test]
fn power_kinds_and_coercion() {
    // Integer, fixed-point, and string-wrapped sources all widen to the
    // same observation value.
    let country = obj(vec![
        ("military_power", whole(5)),
        ("tech_power", dec(5_000_000)),
        ("economy_power", text("5")),
    ]);
    let mut out: Vec<MetricObservation> = Vec::new();
    get_country_powers(&country, "n", "s", &mut out);
    assert_eq!(out.len(), 3);
    for o in &out {
        assert_eq!(o.value, Fixed { micros: 5_000_000 });
    }
    assert_eq!(labels_of(&out[0]), vec!["s", "military", "n"]);
    assert_eq!(labels_of(&out[1]), vec!["s", "tech", "n"]);
    assert_eq!(labels_of(&out[2]), vec!["s", "economic", "n"]);
}

#[test]
fn balance_entries_are_projected_per_resource() {
    let country = obj(vec![(
        "budget",
        obj(vec![(
            "income_high_water_mark",
            obj(vec![(
                "current",
                obj(vec![
                    ("energy", dec(1_500_000)),
                    ("minerals", whole(30)),
                    ("note", text("not a number")),
                ]),
            )]),
        )]),
    )]);
    let gm = obj(vec![("country", obj(vec![("0", country)]))]);
    let cat = catalog_of(vec![]);
    let mut out: Vec<MetricObservation> = Vec::new();
    get_country_infos(&gm, "s", &cat, &mut out);
    let balance: Vec<&MetricObservation> = out
        .iter()
        .filter(|o| o.metric == MetricId::CountryBalance)
        .collect();
    assert_eq!(balance.len(), 2);
    assert_eq!(labels_of(balance[0]), vec!["s", "0", "energy"]);
    assert_eq!(balance[0].value, Fixed { micros: 1_500_000 });
    assert_eq!(labels_of(balance[1]), vec!["s", "0", "minerals"]);
}

#[test]
fn country_without_name_uses_its_key_as_label() {
    let country = obj(vec![("victory_rank", whole(2))]);
    let gm = obj(vec![("country", obj(vec![("42", country)]))]);
    let cat = catalog_of(vec![]);
    let mut out: Vec<MetricObservation> = Vec::new();
    get_country_infos(&gm, "s", &cat, &mut out);
    assert_eq!(out.len(), 1);
    assert_eq!(out[0].metric, MetricId::CountryVictoryStatus);
    assert_eq!(labels_of(&out[0]), vec!["s", "42", "rank"]);
    assert_eq!(out[0].value, Fixed { micros: 2_000_000 });
}

#[test]
fn war_tie_break_picks_first_primary_on_each_side() {
    let attacker = obj(vec![("name", literal_name("Alpha"))]);
    let defender = obj(vec![("name", literal_name("Beta"))]);
    let war = obj(vec![
        ("name", literal_name("The Long War")),
        ("start_date", text("2207.04.01")),
        (
            "attackers",
            Node::List(vec![
                obj(vec![("call_type", text("primary")), ("country", whole(7))]),
                obj(vec![("call_type", text("support")), ("country", whole(9))]),
            ]),
        ),
        (
            "defenders",
            Node::List(vec![
                obj(vec![("call_type", text("support")), ("country", whole(11))]),
                obj(vec![("call_type", text("primary")), ("country", whole(8))]),
            ]),
        ),
        ("attacker_war_goal", obj(vec![("type", text("conquest"))])),
        ("defender_war_goal", obj(vec![("type", text("defense"))])),
        ("battles", Node::List(vec![obj(vec![]), obj(vec![])])),
    ]);
    let gm = obj(vec![
        (
            "country",
            obj(vec![("7", attacker), ("8", defender), ("9", obj(vec![])), ("11", obj(vec![]))]),
        ),
        ("war", obj(vec![("0", war)])),
    ]);
    let cat = catalog_of(vec![("war_goal_conquest", "Conquest")]);
    let mut out: Vec<MetricObservation> = Vec::new();
    get_wars(&gm, "s", &cat, &mut out);
    assert_eq!(out.len(), 1);
    assert_eq!(out[0].metric, MetricId::CountryWarBattles);
    assert_eq!(
        labels_of(&out[0]),
        vec!["s", "Alpha", "Beta", "Conquest", "war_goal_defense", "The Long War", "2207.04.01", "0"]
    );
    assert_eq!(out[0].value, Fixed { micros: 2_000_000 });
}

#[test]
fn war_without_primary_attacker_emits_nothing() {
    let war = obj(vec![
        ("name", literal_name("Quiet War")),
        ("start_date", text("2200.01.01")),
        (
            "attackers",
            Node::List(vec![obj(vec![("call_type", text("support")), ("country", whole(7))])]),
        ),
        (
            "defenders",
            Node::List(vec![obj(vec![("call_type", text("primary")), ("country", whole(8))])]),
        ),
        ("attacker_war_goal", obj(vec![("type", text("x"))])),
        ("defender_war_goal", obj(vec![("type", text("y"))])),
    ]);
    let gm = obj(vec![
        ("country", obj(vec![("7", obj(vec![])), ("8", obj(vec![]))])),
        ("war", obj(vec![("0", war)])),
    ]);
    let cat = catalog_of(vec![]);
    let mut out: Vec<MetricObservation> = Vec::new();
    get_wars(&gm, "s", &cat, &mut out);
    assert_eq!(out.len(), 0);
}

#[test]
fn find_primary_reports_first_match() {
    let entries = vec![
        obj(vec![("call_type", text("support"))]),
        obj(vec![("call_type", text("primary")), ("country", whole(1))]),
        obj(vec![("call_type", text("primary")), ("country", whole(2))]),
    ];
    assert_eq!(find_primary(&entries), Some(1));
    let none = vec![obj(vec![("call_type", text("support"))])];
    assert_eq!(find_primary(&none), None);
}

#[test]
fn megastructures_are_counted_by_type_and_owner() {
    let gm = obj(vec![
        (
            "country",
            obj(vec![("3", obj(vec![("name", literal_name("Gamma"))]))]),
        ),
        (
            "megastructures",
            obj(vec![
                ("1", obj(vec![("type", text("ring_world")), ("owner", whole(3))])),
                ("2", obj(vec![("type", text("ring_world")), ("owner", whole(3))])),
                ("3", obj(vec![("type", text("dyson_sphere")), ("owner", whole(3))])),
                ("4", obj(vec![("type", text("ring_world")), ("owner", whole(4))])),
            ]),
        ),
    ]);
    let cat = catalog_of(vec![("ring_world", "Ring World")]);
    let mut out: Vec<MetricObservation> = Vec::new();
    get_megastructures(&gm, "s", &cat, &mut out);
    assert_eq!(out.len(), 4);
    assert_eq!(labels_of(&out[0]), vec!["s", "Ring World", "Gamma"]);
    assert_eq!(out[0].value, Fixed { micros: 2_000_000 });
    assert_eq!(labels_of(&out[2]), vec!["s", "dyson_sphere", "Gamma"]);
    assert_eq!(out[2].value, Fixed { micros: 1_000_000 });
    // Owner 4 has no country entry: the owner number stands in as label.
    assert_eq!(labels_of(&out[3]), vec!["s", "Ring World", "4"]);
    assert_eq!(out[3].value, Fixed { micros: 1_000_000 });
}

#[test]
fn ship_sizes_follow_fleet_links() {
    let country = obj(vec![
        ("name", literal_name("Delta")),
        (
            "fleets_manager",
            obj(vec![("owned_fleets", Node::List(vec![obj(vec![("fleet", whole(10))])]))]),
        ),
    ]);
    let gm = obj(vec![
        ("country", obj(vec![("0", country)])),
        (
            "fleet",
            obj(vec![("10", obj(vec![("ships", Node::List(vec![whole(100), whole(101)]))]))]),
        ),
        (
            "ships",
            obj(vec![
                ("100", obj(vec![("ship_design", whole(500))])),
                ("101", obj(vec![("ship_design", whole(500))])),
                ("102", obj(vec![("ship_design", whole(500))])),
            ]),
        ),
        (
            "ship_design",
            obj(vec![("500", obj(vec![("ship_size", text("corvette"))]))]),
        ),
    ]);
    let cat = catalog_of(vec![]);
    let mut out: Vec<MetricObservation> = Vec::new();
    get_country_infos(&gm, "s", &cat, &mut out);
    let sizes: Vec<&MetricObservation> = out
        .iter()
        .filter(|o| o.metric == MetricId::CountryShipSizes)
        .collect();
    // One observation per gathered ship id; ship 102 belongs to no gathered
    // fleet, so only two of the three same-design ships are counted.
    assert_eq!(sizes.len(), 2);
    for o in &sizes {
        assert_eq!(labels_of(o), vec!["s", "Delta", "corvette"]);
        assert_eq!(o.value, Fixed { micros: 2_000_000 });
    }
}

#[test]
fn country_lookup_helpers() {
    let gm = obj(vec![(
        "country",
        obj(vec![("7", obj(vec![("name", literal_name("Eta"))])), ("8", obj(vec![]))]),
    )]);
    let cat = catalog_of(vec![]);
    assert!(get_country_by_id(&gm, 7).is_some());
    assert!(get_country_by_id(&gm, 9).is_none());
    let c7 = get_country_by_id(&gm, 7).unwrap();
    assert_eq!(get_country_name(c7, &cat), Some("Eta".to_string()));
    let c8 = get_country_by_id(&gm, 8).unwrap();
    assert_eq!(get_country_name(c8, &cat), None);
    assert_eq!(
        get_country_name_by_id(&gm, "7", &cat),
        Some("Eta".to_string())
    );
    assert_eq!(get_country_name_by_id(&gm, "9", &cat), None);
}

#[test]
fn observations_match_their_schemas() {
    let gm = obj(vec![
        (
            "country",
            obj(vec![(
                "1",
                obj(vec![
                    ("military_power", whole(1)),
                    ("victory_score", whole(9)),
                    ("war_allies", Node::List(vec![])),
                ]),
            )]),
        ),
        (
            "megastructures",
            obj(vec![("1", obj(vec![("type", text("t")), ("owner", whole(1))]))]),
        ),
    ]);
    let cat = catalog_of(vec![]);
    let mut out: Vec<MetricObservation> = Vec::new();
    get_country_infos(&gm, "s", &cat, &mut out);
    get_megastructures(&gm, "s", &cat, &mut out);
    assert!(!out.is_empty());
    for o in &out {
        assert_eq!(o.labels.len(), label_count(o.metric));
        assert!(!metric_name(o.metric).is_empty());
    }
}

#[test]
fn store_holds_latest_snapshot() {
    let mut data = GamestateData::new();
    assert_eq!(*get_game_data(&data), "");
    set_game_data(&mut data, "snapshot".to_string());
    assert_eq!(*get_game_data(&data), "snapshot");
}

#[test]
fn save_path_decision() {
    assert!(is_save_path("saves/autosave_2207.04.01.sav"));
    assert!(!is_save_path("saves/readme.txt"));
    assert!(!is_save_path(".sav"));
    assert!(!is_save_path("x.savx"));
}

#[test]
fn config_defaults() {
    let c = Config::default();
    assert_eq!(c.api.ip, "0.0.0.0");
    assert_eq!(c.api.port, 8881);
    assert_eq!(c.paths.save_location, "");
    assert_eq!(c.paths.game_files_dir, "");
    assert_eq!(c.paths.localisation_path, "");
    let p = GamePaths::default();
    assert_eq!(p.localisation_path, "");
    let a = ApiConfig::default();
    assert_eq!(a.port, 8881);
}

#[test]
fn war_without_date_or_goal_emits_nothing() {
    let base = vec![
        ("name", literal_name("W")),
        (
            "attackers",
            Node::List(vec![obj(vec![("call_type", text("primary")), ("country", whole(7))])]),
        ),
        (
            "defenders",
            Node::List(vec![obj(vec![("call_type", text("primary")), ("country", whole(8))])]),
        ),
        ("attacker_war_goal", obj(vec![("type", text("x"))])),
    ];
    // No start_date and no defender goal type: both block emission.
    let war = obj(base);
    let gm = obj(vec![
        ("country", obj(vec![("7", obj(vec![])), ("8", obj(vec![]))])),
        ("war", obj(vec![("0", war)])),
    ]);
    let cat = catalog_of(vec![]);
    let mut out: Vec<MetricObservation> = Vec::new();
    get_wars(&gm, "s", &cat, &mut out);
    assert_eq!(out.len(), 0);
}

#[test]
fn balance_with_malformed_budget_is_skipped() {
    let country = obj(vec![("budget", text("broken")), ("tech_power", whole(1))]);
    let gm = obj(vec![("country", obj(vec![("0", country)]))]);
    let cat = catalog_of(vec![]);
    let mut out: Vec<MetricObservation> = Vec::new();
    get_country_infos(&gm, "s", &cat, &mut out);
    assert!(out.iter().all(|o| o.metric != MetricId::CountryBalance));
    assert!(out.iter().any(|o| o.metric == MetricId::CountryPower));
}

#[test]
fn non_object_country_entries_are_skipped() {
    let gm = obj(vec![(
        "country",
        obj(vec![("0", text("not a country")), ("1", obj(vec![("victory_rank", whole(1))]))]),
    )]);
    let cat = catalog_of(vec![]);
    let mut out: Vec<MetricObservation> = Vec::new();
    get_country_infos(&gm, "s", &cat, &mut out);
    assert_eq!(out.len(), 1);
    assert_eq!(labels_of(&out[0]), vec!["s", "1", "rank"]);
}
