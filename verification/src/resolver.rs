//! The name resolver.
//!
//! A display name arrives as a small template tree: a node with an optional
//! `key` field, an optional `literal` flag, and an ordered `variables` list
//! whose entries pair a variable key with a nested value node. Resolution
//! expands the tree against the catalog with a fixed grammar: reserved
//! adjective markers resolve through their `adjective`/`1` variable, a
//! literal key is already display text, any other key is looked up and its
//! template's variable tokens are substituted recursively, and a key the
//! catalog does not know falls back to itself. Recursion depth is bounded;
//! at the bound resolution degrades to the best available literal rather
//! than recursing on.

use vstd::prelude::*;

verus! {

use crate::catalog::Catalog;
use crate::node::{Node, Scalar, spec_as_list, spec_as_text, spec_get};
use crate::text::{
    chars_to_string,
    contains_chars,
    replace_chars,
    spec_contains,
    spec_int_chars,
    spec_replace,
    spec_strip,
    spec_trim,
    str_eq,
    str_to_chars,
    strip_chars,
    trim_chars,
    i64_to_string,
};

/// The defensive bound on resolution depth; documents nest four levels or so
/// in practice, and a deeper tree degrades to literals instead of recursing
/// unboundedly.
pub const RESOLVE_FUEL: u32 = 16;

/// The reserved grammar markers that are never looked up directly.
pub open spec fn is_adjective_marker(k: Seq<char>) -> bool {
    k == "%ADJECTIVE%"@ || k == "%ADJ%"@
}

/// The name key of a template node: the text of its `key` field.
pub open spec fn spec_nn_key(n: Node) -> Option<Seq<char>> {
    match spec_get(n, "key"@) {
        Some(kn) => spec_as_text(kn),
        None => None,
    }
}

/// Whether a template node is marked literal: its `literal` field holds the
/// text `yes`.
pub open spec fn spec_nn_literal(n: Node) -> bool {
    match spec_get(n, "literal"@) {
        Some(ln) => spec_as_text(ln) == Some("yes"@),
        None => false,
    }
}

/// The variable entries of a template node, or none for any other shape.
pub open spec fn spec_vars_of(n: Node) -> Seq<Node> {
    match spec_get(n, "variables"@) {
        Some(vn) => match spec_as_list(vn) {
            Some(items) => items,
            None => Seq::empty(),
        },
        None => Seq::empty(),
    }
}

/// The `value` node of a variable entry; an entry without one counts as
/// null, which resolves to the empty string.
pub open spec fn spec_value_or_null(e: Node) -> Node {
    match spec_get(e, "value"@) {
        Some(v) => v,
        None => Node::Null,
    }
}

/// The variable key of a variable entry: its `key` field as text, with a
/// whole number rendered in decimal; any other shape yields an empty key,
/// which never matches a template token.
pub open spec fn spec_var_key(e: Node) -> Option<Seq<char>> {
    match spec_get(e, "key"@) {
        Some(kn) => match kn {
            Node::Scalar(Scalar::Text(t)) => Some(t@),
            Node::Scalar(Scalar::Int(i)) => Some(spec_int_chars(i as int)),
            _ => Some(Seq::empty()),
        },
        None => None,
    }
}

/// The index of the first variable entry keyed `adjective` or `1`, if any.
pub open spec fn spec_first_adj_var(vars: Seq<Node>) -> Option<int>
    decreases vars.len(),
{
    if vars.len() == 0 {
        None
    } else if spec_var_key(vars[0]) == Some("adjective"@) || spec_var_key(vars[0]) == Some("1"@) {
        Some(0)
    } else {
        match spec_first_adj_var(vars.skip(1)) {
            Some(i) => Some(i + 1),
            None => None,
        }
    }
}

/// The template used when an unresolved nested value expands through its own
/// variables: one `$1$` token per variable, space-separated.
pub open spec fn spec_repeat_tpl(n: nat) -> Seq<char>
    decreases n,
{
    if n == 0 {
        Seq::empty()
    } else if n == 1 {
        "$1$"@
    } else {
        spec_repeat_tpl((n - 1) as nat) + " $1$"@
    }
}

/// Whether a variable entry substitutes into `rule`: it has a non-empty
/// variable key that occurs in `rule`, and a value node whose own key is
/// text.
pub open spec fn spec_var_applies(rule: Seq<char>, e: Node) -> bool {
    match spec_var_key(e) {
        Some(vk) => vk.len() > 0 && spec_contains(rule, vk) && (match spec_get(e, "value"@) {
            Some(v) => spec_nn_key(v) is Some,
            None => false,
        }),
        None => false,
    }
}

/// What a nested value node substitutes as: at the depth bound, its raw key;
/// an unresolved or `%ADJ%` key expands through the node's own variables;
/// a known key with variables expands its template; a known key without
/// variables substitutes the template text directly.
pub open spec fn spec_var_replacement(
    v: Node,
    cat: Map<Seq<char>, Seq<char>>,
    fuel: nat,
) -> Seq<char>
    decreases fuel, 0nat, 0nat,
{
    let ck = spec_nn_key(v)->Some_0;
    let vars = spec_vars_of(v);
    if fuel == 0 {
        ck
    } else if ck == "%ADJ%"@ || !cat.contains_key(ck) {
        spec_apply_vars(spec_repeat_tpl(vars.len()), vars, cat, (fuel - 1) as nat)
    } else if vars.len() > 0 {
        spec_apply_vars(cat[ck], vars, cat, (fuel - 1) as nat)
    } else {
        cat[ck]
    }
}

/// Folds the variable entries into the rule, left to right: an applicable
/// entry replaces every occurrence of its key by its value's substitution.
pub open spec fn spec_apply_vars(
    rule: Seq<char>,
    vars: Seq<Node>,
    cat: Map<Seq<char>, Seq<char>>,
    fuel: nat,
) -> Seq<char>
    decreases fuel, 1nat, vars.len(),
{
    if vars.len() == 0 {
        rule
    } else {
        let e = vars[0];
        let rule2 = if spec_var_applies(rule, e) {
            spec_replace(
                rule,
                spec_var_key(e)->Some_0,
                spec_var_replacement(spec_get(e, "value"@)->Some_0, cat, fuel),
            )
        } else {
            rule
        };
        spec_apply_vars(rule2, vars.skip(1), cat, fuel)
    }
}

/// Template substitution: the variable entries are folded into the template
/// and the result is stripped of decoration characters and trimmed.
pub open spec fn spec_apply_grammar(
    tpl: Seq<char>,
    vars: Seq<Node>,
    cat: Map<Seq<char>, Seq<char>>,
    fuel: nat,
) -> Seq<char> {
    spec_trim(spec_strip(spec_apply_vars(tpl, vars, cat, fuel)))
}

/// The best available literal when resolution cannot proceed: the raw key,
/// or the empty string without one.
pub open spec fn spec_fallback(n: Node) -> Seq<char> {
    match spec_nn_key(n) {
        Some(k) => k,
        None => Seq::empty(),
    }
}

/// The resolved display text of a name-template node against a catalog,
/// with `fuel` bounding the recursion depth.
pub open spec fn spec_resolve(n: Node, cat: Map<Seq<char>, Seq<char>>, fuel: nat) -> Seq<char>
    decreases fuel,
{
    if fuel == 0 {
        spec_fallback(n)
    } else {
        match spec_nn_key(n) {
            None => Seq::empty(),
            Some(k) => {
                let vars = spec_vars_of(n);
                if is_adjective_marker(k) {
                    match spec_first_adj_var(vars) {
                        Some(i) => spec_resolve(
                            spec_value_or_null(vars[i]),
                            cat,
                            (fuel - 1) as nat,
                        ),
                        None => spec_lookup_branch(k, vars, cat, fuel),
                    }
                } else if spec_nn_literal(n) {
                    k
                } else {
                    spec_lookup_branch(k, vars, cat, fuel)
                }
            },
        }
    }
}

/// Step three of resolution: a known key expands its template, an unknown
/// key falls back to itself.
pub open spec fn spec_lookup_branch(
    k: Seq<char>,
    vars: Seq<Node>,
    cat: Map<Seq<char>, Seq<char>>,
    fuel: nat,
) -> Seq<char>
    recommends
        fuel >= 1,
{
    if cat.contains_key(k) {
        spec_apply_grammar(cat[k], vars, cat, (fuel - 1) as nat)
    } else {
        k
    }
}

/// Builds the `$1$ $1$ ...` expansion template for `n` variables.
fn repeat_tpl(n: usize) -> (r: Vec<char>)
    ensures
        r@ == spec_repeat_tpl(n as nat),
{
    proof {
        reveal_strlit("$1$");
        reveal_strlit(" $1$");
    }
    let mut r: Vec<char> = Vec::new();
    if n == 0 {
        return r;
    }
    r.push('$');
    r.push('1');
    r.push('$');
    assert(r@ =~= spec_repeat_tpl(1));
    let mut j: usize = 1;
    while j < n
        invariant
            1 <= j <= n,
            r@ == spec_repeat_tpl(j as nat),
        decreases n - j,
    {
        proof {
            reveal_strlit("$1$");
            reveal_strlit(" $1$");
        }
        r.push(' ');
        r.push('$');
        r.push('1');
        r.push('$');
        j = j + 1;
        assert(r@ =~= spec_repeat_tpl(j as nat));
    }
    r
}

/// The variable key of an entry, as executable text.
fn var_key_exec(e: &Node) -> (r: Option<String>)
    ensures
        match r {
            Some(s) => spec_var_key(*e) == Some(s@),
            None => spec_var_key(*e) is None,
        },
{
    match e.get("key") {
        Some(kn) => match kn {
            Node::Scalar(Scalar::Text(t)) => Some(t.clone()),
            Node::Scalar(Scalar::Int(i)) => Some(i64_to_string(*i)),
            _ => Some(String::new()),
        },
        None => None,
    }
}

proof fn lemma_adj_var_at(vars: Seq<Node>, i: int)
    requires
        0 <= i < vars.len(),
        spec_var_key(vars[i]) == Some("adjective"@) || spec_var_key(vars[i]) == Some("1"@),
        forall|k: int|
            0 <= k < i ==> !(spec_var_key(#[trigger] vars[k]) == Some("adjective"@)
                || spec_var_key(vars[k]) == Some("1"@)),
    ensures
        spec_first_adj_var(vars) == Some(i),
    decreases i,
{
    if i > 0 {
        lemma_adj_var_at(vars.skip(1), i - 1);
    }
}

proof fn lemma_adj_var_none(vars: Seq<Node>)
    requires
        forall|k: int|
            0 <= k < vars.len() ==> !(spec_var_key(#[trigger] vars[k]) == Some("adjective"@)
                || spec_var_key(vars[k]) == Some("1"@)),
    ensures
        spec_first_adj_var(vars) is None,
    decreases vars.len(),
{
    if vars.len() > 0 {
        lemma_adj_var_none(vars.skip(1));
    }
}

/// Finds the first variable entry keyed `adjective` or `1`.
fn find_adj_var(vars: &Vec<Node>) -> (r: Option<usize>)
    ensures
        match r {
            Some(i) => i < vars@.len() && spec_first_adj_var(vars@) == Some(i as int),
            None => spec_first_adj_var(vars@) is None,
        },
{
    let mut j: usize = 0;
    while j < vars.len()
        invariant
            j <= vars@.len(),
            forall|k: int|
                0 <= k < j ==> !(spec_var_key(#[trigger] vars@[k]) == Some("adjective"@)
                    || spec_var_key(vars@[k]) == Some("1"@)),
        decreases vars@.len() - j,
    {
        let hit = match var_key_exec(&vars[j]) {
            Some(s) => str_eq(s.as_str(), "adjective") || str_eq(s.as_str(), "1"),
            None => false,
        };
        if hit {
            proof {
                lemma_adj_var_at(vars@, j as int);
            }
            return Some(j);
        }
        j = j + 1;
    }
    proof {
        lemma_adj_var_none(vars@);
    }
    None
}

/// The variable entries of a node, by reference; `spare` stands in for a
/// node that has none.
fn vars_of<'a>(n: &'a Node, spare: &'a Vec<Node>) -> (r: &'a Vec<Node>)
    requires
        spare@.len() == 0,
    ensures
        r@ == spec_vars_of(*n),
{
    match n.get("variables") {
        Some(vn) => match vn.as_list() {
            Some(items) => items,
            None => spare,
        },
        None => spare,
    }
}

fn var_replacement_exec(v: &Node, cat: &Catalog, fuel: u32) -> (r: Vec<char>)
    requires
        spec_nn_key(*v) is Some,
    ensures
        r@ == spec_var_replacement(*v, cat@, fuel as nat),
    decreases fuel, 0nat,
{
    let ck: &String = match v.get("key") {
        Some(kn) => match kn.as_text() {
            Some(t) => t,
            None => {
                proof {
                    assert(false);
                }
                return Vec::new();
            },
        },
        None => {
            proof {
                assert(false);
            }
            return Vec::new();
        },
    };
    if fuel == 0 {
        return str_to_chars(ck.as_str());
    }
    let spare: Vec<Node> = Vec::new();
    let vars = vars_of(v, &spare);
    if str_eq(ck.as_str(), "%ADJ%") || !cat.contains(ck.as_str()) {
        let tpl = repeat_tpl(vars.len());
        apply_vars_exec(tpl, vars, cat, fuel - 1)
    } else {
        let tpl: String = match cat.lookup(ck.as_str()) {
            Some(t) => t,
            None => {
                proof {
                    assert(false);
                }
                String::new()
            },
        };
        if vars.len() > 0 {
            let rule = str_to_chars(tpl.as_str());
            apply_vars_exec(rule, vars, cat, fuel - 1)
        } else {
            str_to_chars(tpl.as_str())
        }
    }
}

fn apply_vars_exec(rule: Vec<char>, vars: &Vec<Node>, cat: &Catalog, fuel: u32) -> (r: Vec<char>)
    ensures
        r@ == spec_apply_vars(rule@, vars@, cat@, fuel as nat),
    decreases fuel, 1nat,
{
    let ghost orig = rule@;
    let mut cur = rule;
    let mut j: usize = 0;
    proof {
        assert(vars@.skip(0) =~= vars@);
    }
    while j < vars.len()
        invariant
            j <= vars@.len(),
            spec_apply_vars(cur@, vars@.skip(j as int), cat@, fuel as nat) == spec_apply_vars(
                orig,
                vars@,
                cat@,
                fuel as nat,
            ),
        decreases vars@.len() - j,
    {
        let ghost e = vars@[j as int];
        let ghost before = cur@;
        proof {
            assert(vars@.skip(j as int)[0] == e);
            assert(vars@.skip(j as int).skip(1) =~= vars@.skip(j + 1));
        }
        let entry = &vars[j];
        match var_key_exec(entry) {
            Some(vk_s) => {
                let vk = str_to_chars(vk_s.as_str());
                if vk.len() > 0 && contains_chars(&cur, &vk) {
                    match entry.get("value") {
                        Some(valnode) => {
                            let key_is_text = match valnode.get("key") {
                                Some(kn) => match kn.as_text() {
                                    Some(_) => true,
                                    None => false,
                                },
                                None => false,
                            };
                            if key_is_text {
                                assert(spec_var_applies(before, e));
                                let rep = var_replacement_exec(valnode, cat, fuel);
                                cur = replace_chars(&cur, &vk, &rep);
                            } else {
                                assert(!spec_var_applies(before, e));
                            }
                        },
                        None => {
                            assert(!spec_var_applies(before, e));
                        },
                    }
                } else {
                    assert(!spec_var_applies(before, e));
                }
            },
            None => {
                assert(!spec_var_applies(before, e));
            },
        }
        j = j + 1;
    }
    proof {
        assert(vars@.skip(vars@.len() as int) =~= Seq::<Node>::empty());
    }
    cur
}

fn lookup_branch_exec(k: &String, vars: &Vec<Node>, cat: &Catalog, fuel: u32) -> (r: String)
    requires
        fuel >= 1,
    ensures
        r@ == spec_lookup_branch(k@, vars@, cat@, fuel as nat),
{
    match cat.lookup(k.as_str()) {
        Some(tpl) => {
            let rule = str_to_chars(tpl.as_str());
            let applied = apply_vars_exec(rule, vars, cat, fuel - 1);
            let stripped = strip_chars(&applied);
            let trimmed = trim_chars(&stripped);
            chars_to_string(&trimmed)
        },
        None => k.clone(),
    }
}

fn resolve_at(n: &Node, cat: &Catalog, fuel: u32) -> (r: String)
    ensures
        r@ == spec_resolve(*n, cat@, fuel as nat),
    decreases fuel,
{
    let key_opt: Option<&String> = match n.get("key") {
        Some(kn) => kn.as_text(),
        None => None,
    };
    if fuel == 0 {
        return match key_opt {
            Some(k) => k.clone(),
            None => String::new(),
        };
    }
    match key_opt {
        None => String::new(),
        Some(k) => {
            let spare: Vec<Node> = Vec::new();
            let vars = vars_of(n, &spare);
            if str_eq(k.as_str(), "%ADJECTIVE%") || str_eq(k.as_str(), "%ADJ%") {
                match find_adj_var(vars) {
                    Some(i) => {
                        match vars[i].get("value") {
                            Some(v) => resolve_at(v, cat, fuel - 1),
                            None => {
                                proof {
                                    assert(spec_resolve(Node::Null, cat@, (fuel - 1) as nat)
                                        == Seq::<char>::empty());
                                }
                                String::new()
                            },
                        }
                    },
                    None => lookup_branch_exec(k, vars, cat, fuel),
                }
            } else {
                let lit = match n.get("literal") {
                    Some(ln) => match ln.as_text() {
                        Some(t) => str_eq(t.as_str(), "yes"),
                        None => false,
                    },
                    None => false,
                };
                if lit {
                    k.clone()
                } else {
                    lookup_branch_exec(k, vars, cat, fuel)
                }
            }
        },
    }
}

/// Expands a name-template node into display text against the catalog.
/// Resolution is a pure function of the node and the catalog's mapping, and
/// never fails: at worst it degrades to the raw key or the empty string.
pub fn resolve(node: &Node, catalog: &Catalog) -> (r: String)
    ensures
        r@ == spec_resolve(*node, catalog@, RESOLVE_FUEL as nat),
{
    resolve_at(node, catalog, RESOLVE_FUEL)
}

/// What a bare catalog key renders as: the stored template when the
/// catalog knows the key, the key itself otherwise.
pub open spec fn spec_render_name(k: Seq<char>, cat: Map<Seq<char>, Seq<char>>) -> Seq<char> {
    if cat.contains_key(k) {
        cat[k]
    } else {
        k
    }
}

/// Renders a bare catalog key: the stored template when the catalog knows
/// the key, the key itself otherwise.
pub fn render_name(key: String, catalog: &Catalog) -> (r: String)
    ensures
        r@ == spec_render_name(key@, catalog@),
{
    match catalog.lookup(key.as_str()) {
        Some(v) => v,
        None => key,
    }
}

/// Expands a name-template node against the catalog; the free-function form
/// of [`NameRenderer::transform_input_to_readable`].
pub fn transform_input_name(input: &Node, catalog: &Catalog) -> (r: String)
    ensures
        r@ == spec_resolve(*input, catalog@, RESOLVE_FUEL as nat),
{
    resolve(input, catalog)
}

/// Holds the texts of the localization resource files together with the
/// catalog built out of them.
#[derive(Debug)]
pub struct NameRenderer {
    pub localization_files: Vec<String>,
    pub name_mapping: Catalog,
}

impl NameRenderer {
    /// A renderer over the given resource texts, with nothing loaded yet.
    pub fn new(localization_files: Vec<String>) -> (r: NameRenderer)
        ensures
            r.localization_files == localization_files,
            r.name_mapping@ == Map::<Seq<char>, Seq<char>>::empty(),
    {
        NameRenderer { localization_files, name_mapping: Catalog::new() }
    }

    /// Builds the name mapping out of the held resource texts, with the
    /// built-in grammar templates added. Fails exactly on an empty resource
    /// set, the one unrecoverable condition.
    pub fn load_name_mapping(&mut self) -> (r: Result<(), crate::catalog::CatalogError>)
        ensures
            final (self).localization_files == old(self).localization_files,
            r is Err <==> old(self).localization_files@.len() == 0,
            r is Ok ==> final (self).name_mapping@ == crate::catalog::spec_load(
                crate::catalog::string_views(old(self).localization_files@),
            ),
            r is Err ==> *final (self) == *old(self),
    {
        match crate::catalog::load(&self.localization_files) {
            Ok(c) => {
                self.name_mapping = c;
                Ok(())
            },
            Err(e) => Err(e),
        }
    }

    /// Looks a key up in the name mapping.
    pub fn from_key(&self, key: String) -> (r: Option<String>)
        ensures
            match r {
                Some(v) => self.name_mapping@.contains_key(key@) && v@
                    == self.name_mapping@[key@],
                None => !self.name_mapping@.contains_key(key@),
            },
    {
        self.name_mapping.lookup(key.as_str())
    }

    /// Applies template substitution to a rule against the name mapping.
    pub fn apply_grammar_rules(&self, rule: String, variables: &Vec<Node>) -> (r: String)
        ensures
            r@ == spec_apply_grammar(
                rule@,
                variables@,
                self.name_mapping@,
                RESOLVE_FUEL as nat,
            ),
    {
        let chars = str_to_chars(rule.as_str());
        let applied = apply_vars_exec(chars, variables, &self.name_mapping, RESOLVE_FUEL);
        let stripped = strip_chars(&applied);
        let trimmed = trim_chars(&stripped);
        chars_to_string(&trimmed)
    }

    /// Expands a name-template node into display text.
    pub fn transform_input_to_readable(&self, input: &Node) -> (r: String)
        ensures
            r@ == spec_resolve(*input, self.name_mapping@, RESOLVE_FUEL as nat),
    {
        resolve(input, &self.name_mapping)
    }
}

/// Resolution is deterministic: a pure function of the template node and of
/// the catalog's mapping, so two calls on equal inputs yield equal text.
pub proof fn lemma_resolver_deterministic(
    n1: Node,
    n2: Node,
    c1: Map<Seq<char>, Seq<char>>,
    c2: Map<Seq<char>, Seq<char>>,
    fuel: nat,
)
    requires
        n1 == n2,
        c1 == c2,
    ensures
        spec_resolve(n1, c1, fuel) == spec_resolve(n2, c2, fuel),
{
}

/// The fallback law: a node whose key the catalog lacks, carrying no
/// literal flag and no variables, resolves to its raw key unchanged — never
/// to an error and never to the empty string.
pub proof fn lemma_fallback_raw_key(
    n: Node,
    k: Seq<char>,
    cat: Map<Seq<char>, Seq<char>>,
    fuel: nat,
)
    requires
        fuel >= 1,
        spec_nn_key(n) == Some(k),
        !spec_nn_literal(n),
        spec_vars_of(n).len() == 0,
        !cat.contains_key(k),
    ensures
        spec_resolve(n, cat, fuel) == k,
{
    if is_adjective_marker(k) {
        assert(spec_first_adj_var(spec_vars_of(n)) is None);
    }
}

proof fn lemma_first_adj_in_range(vars: Seq<Node>)
    ensures
        spec_first_adj_var(vars) is Some ==> 0 <= spec_first_adj_var(vars)->Some_0 < vars.len(),
    decreases vars.len(),
{
    if vars.len() > 0 {
        lemma_first_adj_in_range(vars.skip(1));
    }
}

/// The adjective-marker law: a node keyed with a reserved adjective marker
/// resolves through the value of its first `adjective`/`1` variable, one
/// step deeper, rather than through a literal expansion of the marker key.
pub proof fn lemma_adjective_marker(
    n: Node,
    k: Seq<char>,
    cat: Map<Seq<char>, Seq<char>>,
    fuel: nat,
    i: int,
)
    requires
        fuel >= 1,
        spec_nn_key(n) == Some(k),
        is_adjective_marker(k),
        spec_first_adj_var(spec_vars_of(n)) == Some(i),
    ensures
        0 <= i < spec_vars_of(n).len(),
        spec_resolve(n, cat, fuel) == spec_resolve(
            spec_value_or_null(spec_vars_of(n)[i]),
            cat,
            (fuel - 1) as nat,
        ),
{
    lemma_first_adj_in_range(spec_vars_of(n));
}

} // verus!
