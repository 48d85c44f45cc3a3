//! Tests for the text utilities, numeric coercion, generic nodes, the
//! catalog loader, and the name resolver.

use stellaris_exporter::catalog::{load, parse_yaml, Catalog, CatalogError};
use stellaris_exporter::node::{coerce, Node, Scalar};
use stellaris_exporter::numeric::{parse_fixed, Fixed};
use stellaris_exporter::resolver::{render_name, resolve, transform_input_name, NameRenderer};
use stellaris_exporter::text::{
    chars_to_string, contains_chars, i64_to_string, replace_chars, str_to_chars, strip_chars,
    trim_chars, u64_to_string,
};

fn chars(s: &str) -> Vec<char> {
    str_to_chars(s)
}

fn text(s: &str) -> Node {
    Node::Scalar(Scalar::Text(s.to_string()))
}

fn whole(i: i64) -> Node {
    Node::Scalar(Scalar::Int(i))
}

fn obj(fields: Vec<(&str, Node)>) -> Node {
    Node::Object(fields.into_iter().map(|(k, v)| (k.to_string(), v)).collect())
}

fn name_node(key: &str, literal: bool, variables: Vec<(&str, Node)>) -> Node {
    let mut fields: Vec<(String, Node)> = vec![("key".to_string(), text(key))];
    if literal {
        fields.push(("literal".to_string(), text("yes")));
    }
    if !variables.is_empty() {
        let vars: Vec<Node> = variables
            .into_iter()
            .map(|(vk, value)| {
                Node::Object(vec![
                    ("key".to_string(), text(vk)),
                    ("value".to_string(), value),
                ])
            })
            .collect();
        fields.push(("variables".to_string(), Node::List(vars)));
    }
    Node::Object(fields)
}

fn catalog_of(entries: Vec<(&str, &str)>) -> Catalog {
    let mut c = Catalog::new();
    for (k, v) in entries {
        c.insert(k.to_string(), v.to_string());
    }
    c
}

#[test]
fn contains_and_replace() {
    assert!(contains_chars(&chars("$1$ Empire"), &chars("1")));
    assert!(!contains_chars(&chars("$1$ Empire"), &chars("2")));
    assert!(contains_chars(&chars("abc"), &chars("")));
    let replaced = replace_chars(&chars("$1$ and $1$"), &chars("1"), &chars("Vekshi"));
    assert_eq!(chars_to_string(&replaced), "$Vekshi$ and $Vekshi$");
}

#[test]
fn trim_and_strip() {
    assert_eq!(chars_to_string(&trim_chars(&chars("  a b \t\r\n"))), "a b");
    assert_eq!(chars_to_string(&strip_chars(&chars("$a$ [b]"))), "a b");
    assert_eq!(chars_to_string(&trim_chars(&chars("   "))), "");
}

#[test]
fn decimal_rendering() {
    assert_eq!(u64_to_string(0), "0");
    assert_eq!(u64_to_string(907), "907");
    assert_eq!(i64_to_string(-42), "-42");
    assert_eq!(i64_to_string(i64::MIN), "-9223372036854775808");
}

#[test]
fn numeric_coercion() {
    // An integer, a decimal text, and a plain whole-number text all coerce
    // to the same fixed-point value.
    let five = Fixed { micros: 5_000_000 };
    assert_eq!(coerce(&Scalar::Int(5)), Some(five));
    assert_eq!(coerce(&Scalar::Dec(Fixed::from_int(5))), Some(five));
    assert_eq!(coerce(&Scalar::Text("5".to_string())), Some(five));
    assert_eq!(coerce(&Scalar::Text("5.0".to_string())), Some(five));
}

#[test]
fn parse_fixed_texts() {
    assert_eq!(parse_fixed(&chars("12.5")), Some(Fixed { micros: 12_500_000 }));
    assert_eq!(parse_fixed(&chars("-3.25")), Some(Fixed { micros: -3_250_000 }));
    assert_eq!(parse_fixed(&chars("0.1234567")), Some(Fixed { micros: 123_456 }));
    assert_eq!(parse_fixed(&chars("007")), Some(Fixed { micros: 7_000_000 }));
    // Magnitudes that do not fit are coerced to zero, not propagated.
    assert_eq!(
        parse_fixed(&chars("99999999999999999999")),
        Some(Fixed { micros: 0 })
    );
    assert_eq!(parse_fixed(&chars("")), None);
    assert_eq!(parse_fixed(&chars("1.2.3")), None);
    assert_eq!(parse_fixed(&chars("five")), None);
    assert_eq!(parse_fixed(&chars("5.")), None);
    assert_eq!(parse_fixed(&chars("-")), None);
}

#[test]
fn node_accessors_are_defensive() {
    let n = obj(vec![("a", whole(1)), ("b", Node::List(vec![whole(2), whole(3)]))]);
    assert_eq!(n.get("a").unwrap().as_int(), Some(1));
    assert!(n.get("missing").is_none());
    assert!(n.get("a").unwrap().as_list().is_none());
    assert!(Node::Null.get("a").is_none());
    assert!(whole(1).get("a").is_none());
}

#[test]
fn iteration_is_uniform_across_encodings() {
    // The same logical collection as a list, as an index-keyed object, and
    // as null: the list and the object iterate identically, and null
    // iterates like the empty collection.
    let as_list = Node::List(vec![text("x"), text("y")]);
    let as_map = obj(vec![("0", text("x")), ("1", text("y"))]);
    assert_eq!(as_list.entry_count(), as_map.entry_count());
    for i in 0..as_list.entry_count() {
        assert_eq!(as_list.entry_key(i), as_map.entry_key(i));
        let a = as_list.entry_value(i).as_text().unwrap();
        let b = as_map.entry_value(i).as_text().unwrap();
        assert_eq!(a, b);
    }
    assert_eq!(Node::Null.entry_count(), 0);
    assert_eq!(Node::List(vec![]).entry_count(), 0);
    assert_eq!(obj(vec![]).entry_count(), 0);
}

#[test]
fn parse_yaml_lines() {
    let data = "l_english:\n empire_name:0 \"Grand Empire\"\n# a comment line:0 \"ignored\"\n   \n malformed line without version\n quoted:12 \"has \"inner\" quotes\"\n";
    let pairs = parse_yaml(data);
    assert_eq!(pairs.len(), 2);
    assert_eq!(pairs[0].0, "empire_name");
    assert_eq!(pairs[0].1, "Grand Empire");
    assert_eq!(pairs[1].0, "quoted");
    assert_eq!(pairs[1].1, "has \"inner\" quotes");
}

#[test]
fn load_inserts_builtins_and_overrides() {
    let file_a = " k:0 \"first\"\n k:0 \"second\"\n".to_string();
    let file_b = " k:0 \"third\"\n".to_string();
    let cat = load(&vec![file_a, file_b]).unwrap();
    // A later entry for the same key wins, across files too.
    assert_eq!(cat.lookup("k"), Some("third".to_string()));
    // The built-in grammar templates are present when not defined.
    assert_eq!(cat.lookup("%ADJECTIVE%"), Some("$adjective$ $1$".to_string()));
    assert_eq!(cat.lookup("%LEADER_1%"), Some("$1$ $2$".to_string()));
    assert_eq!(cat.lookup("%LEADER_2%"), Some("$1$ $2$".to_string()));
    assert_eq!(cat.lookup("unknown"), None);
}

#[test]
fn load_rejects_empty_resource_set() {
    let r = load(&vec![]);
    assert_eq!(r.err(), Some(CatalogError::NoResources));
}

#[test]
fn resolver_fallback_returns_raw_key() {
    // A key the catalog lacks, with no literal flag and no variables,
    // resolves to itself unchanged.
    let cat = catalog_of(vec![("other", "Other")]);
    let n = name_node("unknown_key", false, vec![]);
    assert_eq!(resolve(&n, &cat), "unknown_key");
}

#[test]
fn resolver_literal_key_is_display_text() {
    let cat = catalog_of(vec![("lit", "Should not be used")]);
    let n = name_node("lit", true, vec![]);
    assert_eq!(resolve(&n, &cat), "lit");
}

#[test]
fn resolver_known_key_without_variables() {
    let cat = catalog_of(vec![("empire_name", "Grand Empire")]);
    let n = name_node("empire_name", false, vec![]);
    assert_eq!(resolve(&n, &cat), "Grand Empire");
}

#[test]
fn grammar_substitution_round_trip() {
    // tpl_x -> "$1$ Empire" with variable 1 naming tpl_y -> "Vekshi".
    let cat = catalog_of(vec![("tpl_x", "$1$ Empire"), ("tpl_y", "Vekshi")]);
    let n = name_node("tpl_x", false, vec![("1", name_node("tpl_y", true, vec![]))]);
    assert_eq!(resolve(&n, &cat), "Vekshi Empire");
}

#[test]
fn adjective_marker_resolves_through_variable() {
    let cat = catalog_of(vec![("tpl_z", "Stellar")]);
    let n = name_node(
        "%ADJECTIVE%",
        false,
        vec![("adjective", name_node("tpl_z", false, vec![]))],
    );
    assert_eq!(resolve(&n, &cat), "Stellar");
}

#[test]
fn adjective_marker_prefers_adjective_variable() {
    let cat = load(&vec![" adj:0 \"Mighty\"\n noun:0 \"Empire\"\n".to_string()]).unwrap();
    let n = name_node(
        "%ADJECTIVE%",
        false,
        vec![
            ("adjective", name_node("adj", false, vec![])),
            ("1", name_node("noun", false, vec![])),
        ],
    );
    assert_eq!(resolve(&n, &cat), "Mighty");
}

#[test]
fn adjective_marker_without_matching_variable_uses_builtin() {
    // No adjective/1 variable: the marker key is looked up like any other,
    // and the loaded catalog supplies the built-in agreement template.
    let cat = load(&vec![" x:0 \"unused\"\n".to_string()]).unwrap();
    let n = name_node("%ADJECTIVE%", false, vec![("2", name_node("x", false, vec![]))]);
    // The template's tokens stay unsubstituted and only lose decoration.
    assert_eq!(resolve(&n, &cat), "adjective 1");
}

#[test]
fn chained_grammar_through_unresolved_key() {
    // The nested value's key is unknown, so it expands through its own
    // variables.
    let cat = catalog_of(vec![("tpl", "$1$ Realm"), ("inner", "Deep")]);
    let nested = name_node("no_such", false, vec![("1", name_node("inner", false, vec![]))]);
    let n = name_node("tpl", false, vec![("1", nested)]);
    assert_eq!(resolve(&n, &cat), "Deep Realm");
}

#[test]
fn resolver_is_deterministic() {
    let cat = catalog_of(vec![("tpl_x", "$1$ Empire"), ("tpl_y", "Vekshi")]);
    let n = name_node("tpl_x", false, vec![("1", name_node("tpl_y", true, vec![]))]);
    assert_eq!(resolve(&n, &cat), resolve(&n, &cat));
}

#[test]
fn empty_name_node_resolves_to_empty_string() {
    let cat = catalog_of(vec![]);
    assert_eq!(resolve(&obj(vec![]), &cat), "");
    assert_eq!(resolve(&Node::Null, &cat), "");
}

#[test]
fn numeric_variable_keys_substitute() {
    let cat = catalog_of(vec![("greet", "$1$, $2$!"), ("a", "Hello"), ("b", "World")]);
    // Build variables whose keys are whole numbers, as documents write them.
    let vars = Node::List(vec![
        Node::Object(vec![
            ("key".to_string(), whole(1)),
            ("value".to_string(), name_node("a", false, vec![])),
        ]),
        Node::Object(vec![
            ("key".to_string(), whole(2)),
            ("value".to_string(), name_node("b", false, vec![])),
        ]),
    ]);
    let full = Node::Object(vec![
        ("key".to_string(), text("greet")),
        ("variables".to_string(), vars),
    ]);
    assert_eq!(resolve(&full, &cat), "Hello, World!");
}

#[test]
fn render_name_falls_back_to_key() {
    let cat = catalog_of(vec![("known", "Known Value")]);
    assert_eq!(render_name("known".to_string(), &cat), "Known Value");
    assert_eq!(render_name("unknown".to_string(), &cat), "unknown");
}

#[test]
fn name_renderer_load_and_from_key() {
    let mut r = NameRenderer::new(vec![" k:0 \"v\"\n".to_string()]);
    assert!(r.load_name_mapping().is_ok());
    assert_eq!(r.from_key("k".to_string()), Some("v".to_string()));
    assert_eq!(r.from_key("absent".to_string()), None);
    let n = name_node("k", false, vec![]);
    assert_eq!(r.transform_input_to_readable(&n), "v");
    assert_eq!(transform_input_name(&n, &r.name_mapping), "v");

    let mut empty = NameRenderer::new(vec![]);
    assert!(empty.load_name_mapping().is_err());
}

#[test]
fn deep_template_trees_degrade_instead_of_recursing() {
    // A tree deeper than the resolution bound terminates and degrades to
    // the raw key at the depth guard.
    let cat = catalog_of(vec![("t", "$1$")]);
    let mut n = name_node("t", true, vec![]);
    for _ in 0..64 {
        n = name_node("t", false, vec![("1", n)]);
    }
    assert_eq!(resolve(&n, &cat), "t");
}

#[test]
fn leader_template_expands_both_parts() {
    let cat = load(&vec![" first:0 \"Anita\"\n last:0 \"Reyes\"\n".to_string()]).unwrap();
    let n = name_node(
        "%LEADER_1%",
        false,
        vec![
            ("1", name_node("first", false, vec![])),
            ("2", name_node("last", false, vec![])),
        ],
    );
    assert_eq!(resolve(&n, &cat), "Anita Reyes");
}

#[test]
fn parse_line_ignores_text_after_last_quote() {
    let pairs = parse_yaml(" k:0 \"v\" trailing text\n");
    assert_eq!(pairs.len(), 1);
    assert_eq!(pairs[0].0, "k");
    assert_eq!(pairs[0].1, "v");
}

#[test]
fn list_indices_render_in_decimal() {
    let items: Vec<Node> = (0..12).map(|i| whole(i)).collect();
    let list = Node::List(items);
    assert_eq!(list.entry_key(0), "0");
    assert_eq!(list.entry_key(10), "10");
    assert_eq!(list.entry_value(11).as_int(), Some(11));
}
