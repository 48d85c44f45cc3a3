//! The localization catalog.
//!
//! A catalog maps localization keys to template strings. It is loaded once
//! from the text of a set of resource files, each parsed line by line:
//! a line of the shape `<indent> key:<digits> "<value>"` yields an entry,
//! blank lines and lines whose first non-blank character is `#` are skipped,
//! and any other line is silently dropped. After parsing, a small fixed set
//! of built-in grammar templates is inserted for keys the resources do not
//! define. An empty resource set is the one fatal error: no name could ever
//! resolve against an empty catalog.

use vstd::prelude::*;

verus! {

use crate::numeric::{is_digit, is_digit_char};
use crate::text::{
    chars_to_string,
    find_char_from,
    is_space,
    is_space_char,
    spec_trim,
    str_eq,
    str_to_chars,
    subvec,
    trim_chars,
};

/// A character that may stand in a localization key: anything but
/// whitespace, the key/version separator, and the quote.
pub open spec fn is_key_char(c: char) -> bool {
    !is_space(c) && c != ':' && c != '"'
}

/// The end of the whitespace run of `s` that starts at `i`.
pub open spec fn spec_ws_run(s: Seq<char>, i: int) -> int
    decreases s.len() - i when 0 <= i <= s.len()
{
    if i < s.len() && is_space(s[i]) {
        spec_ws_run(s, i + 1)
    } else {
        i
    }
}

/// The end of the key-character run of `s` that starts at `i`.
pub open spec fn spec_key_run(s: Seq<char>, i: int) -> int
    decreases s.len() - i when 0 <= i <= s.len()
{
    if i < s.len() && is_key_char(s[i]) {
        spec_key_run(s, i + 1)
    } else {
        i
    }
}

/// The end of the digit run of `s` that starts at `i`.
pub open spec fn spec_digit_run(s: Seq<char>, i: int) -> int
    decreases s.len() - i when 0 <= i <= s.len()
{
    if i < s.len() && is_digit(s[i]) {
        spec_digit_run(s, i + 1)
    } else {
        i
    }
}

/// The index of the last quote character in `s`, if any.
pub open spec fn spec_last_quote(s: Seq<char>) -> Option<int>
    decreases s.len(),
{
    if s.len() == 0 {
        None
    } else if s.last() == '"' {
        Some(s.len() - 1)
    } else {
        spec_last_quote(s.drop_last())
    }
}

/// The (key, value) pair a resource line yields, if it has the entry shape:
/// at least one character of indent, a non-empty key, a colon with at least
/// one version digit, whitespace, and a quoted value reaching to the last
/// quote of the line.
pub open spec fn spec_parse_line(s: Seq<char>) -> Option<(Seq<char>, Seq<char>)> {
    let a = spec_ws_run(s, 0);
    if a < 1 {
        None
    } else {
        let k = spec_key_run(s, a);
        if k <= a || k >= s.len() || s[k] != ':' {
            None
        } else {
            let d = spec_digit_run(s, k + 1);
            if d <= k + 1 {
                None
            } else {
                let w = spec_ws_run(s, d);
                if w <= d || w >= s.len() || s[w] != '"' {
                    None
                } else {
                    match spec_last_quote(s) {
                        Some(q) => if q > w {
                            Some((s.subrange(a, k), s.subrange(w + 1, q)))
                        } else {
                            None
                        },
                        None => None,
                    }
                }
            }
        }
    }
}

/// A line skipped before parsing: blank, or a comment whose first non-blank
/// character is `#`.
pub open spec fn spec_skip_line(s: Seq<char>) -> bool {
    spec_trim(s).len() == 0 || spec_trim(s)[0] == '#'
}

/// Parses one resource line.
pub fn parse_line(v: &Vec<char>) -> (r: Option<(String, String)>)
    ensures
        match r {
            Some(p) => spec_parse_line(v@) == Some((p.0@, p.1@)),
            None => spec_parse_line(v@) is None,
        },
{
    let n = v.len();
    let mut a: usize = 0;
    while a < n && is_space_char(v[a])
        invariant
            a <= n == v@.len(),
            spec_ws_run(v@, 0) == spec_ws_run(v@, a as int),
        decreases n - a,
    {
        a = a + 1;
    }
    assert(spec_ws_run(v@, 0) == a);
    if a < 1 {
        return None;
    }
    let mut k: usize = a;
    while k < n && !is_space_char(v[k]) && v[k] != ':' && v[k] != '"'
        invariant
            a <= k <= n == v@.len(),
            spec_key_run(v@, a as int) == spec_key_run(v@, k as int),
        decreases n - k,
    {
        k = k + 1;
    }
    assert(spec_key_run(v@, a as int) == k);
    if k <= a || k >= n {
        return None;
    }
    if v[k] != ':' {
        return None;
    }
    let mut d: usize = k + 1;
    while d < n && is_digit_char(v[d])
        invariant
            k + 1 <= d <= n == v@.len(),
            spec_digit_run(v@, k + 1) == spec_digit_run(v@, d as int),
        decreases n - d,
    {
        d = d + 1;
    }
    assert(spec_digit_run(v@, k + 1) == d);
    if d <= k + 1 {
        return None;
    }
    let mut w: usize = d;
    while w < n && is_space_char(v[w])
        invariant
            d <= w <= n == v@.len(),
            spec_ws_run(v@, d as int) == spec_ws_run(v@, w as int),
        decreases n - w,
    {
        w = w + 1;
    }
    assert(spec_ws_run(v@, d as int) == w);
    if w <= d || w >= n {
        return None;
    }
    if v[w] != '"' {
        return None;
    }
    let mut q: usize = n;
    proof {
        assert(v@.take(n as int) =~= v@);
    }
    loop
        invariant
            0 <= q <= n == v@.len(),
            spec_last_quote(v@) == spec_last_quote(v@.take(q as int)),
        ensures
            match spec_last_quote(v@) {
                Some(lq) => 0 < q <= n && lq == q - 1 && v@[q - 1] == '"',
                None => q == 0,
            },
        decreases q,
    {
        if q == 0 {
            assert(v@.take(0) =~= Seq::<char>::empty());
            break ;
        }
        if v[q - 1] == '"' {
            proof {
                let t = v@.take(q as int);
                assert(t.last() == v@[q - 1]);
                assert(spec_last_quote(t) == Some(q - 1));
            }
            break ;
        }
        proof {
            let t = v@.take(q as int);
            assert(t.last() == v@[q - 1]);
            assert(t.drop_last() =~= v@.take(q - 1));
        }
        q = q - 1;
    }
    if q == 0 || q - 1 <= w {
        return None;
    }
    let key = subvec(v, a, k);
    let value = subvec(v, w + 1, q - 1);
    Some((chars_to_string(&key), chars_to_string(&value)))
}

/// The index of the first occurrence of `c` in `s`, if any.
pub open spec fn spec_find_first(s: Seq<char>, c: char) -> Option<int>
    decreases s.len(),
{
    if s.len() == 0 {
        None
    } else if s[0] == c {
        Some(0)
    } else {
        match spec_find_first(s.skip(1), c) {
            Some(i) => Some(i + 1),
            None => None,
        }
    }
}

proof fn lemma_find_first_none(s: Seq<char>, c: char)
    requires
        forall|k: int| 0 <= k < s.len() ==> s[k] != c,
    ensures
        spec_find_first(s, c) is None,
    decreases s.len(),
{
    if s.len() > 0 {
        lemma_find_first_none(s.skip(1), c);
    }
}

proof fn lemma_find_first_at(s: Seq<char>, c: char, i: int)
    requires
        0 <= i < s.len(),
        s[i] == c,
        forall|k: int| 0 <= k < i ==> s[k] != c,
    ensures
        spec_find_first(s, c) == Some(i),
    decreases i,
{
    if i > 0 {
        lemma_find_first_at(s.skip(1), c, i - 1);
    }
}

/// A line without its trailing carriage return, if it has one.
pub open spec fn spec_strip_cr(l: Seq<char>) -> Seq<char> {
    if l.len() > 0 && l.last() == '\r' {
        l.drop_last()
    } else {
        l
    }
}

/// The lines of a text: segments between newline characters, each without a
/// trailing carriage return; a trailing newline opens no empty final line.
pub open spec fn spec_lines(s: Seq<char>) -> Seq<Seq<char>>
    decreases s.len(),
{
    if s.len() == 0 {
        Seq::empty()
    } else {
        match spec_find_first(s, '\n') {
            Some(i) => if 0 <= i < s.len() {
                seq![spec_strip_cr(s.take(i))] + spec_lines(s.skip(i + 1))
            } else {
                Seq::empty()
            },
            None => seq![spec_strip_cr(s)],
        }
    }
}

/// The views of a vector of character vectors.
pub open spec fn views_of(ls: Seq<Vec<char>>) -> Seq<Seq<char>> {
    ls.map_values(|l: Vec<char>| l@)
}

/// Splits a text into its lines.
pub fn split_lines(v: &Vec<char>) -> (r: Vec<Vec<char>>)
    ensures
        views_of(r@) == spec_lines(v@),
{
    let n = v.len();
    let mut out: Vec<Vec<char>> = Vec::new();
    let mut pos: usize = 0;
    proof {
        assert(v@.skip(0) =~= v@);
        assert(views_of(out@) + spec_lines(v@) =~= spec_lines(v@));
    }
    while pos < n
        invariant
            pos <= n == v@.len(),
            views_of(out@) + spec_lines(v@.skip(pos as int)) == spec_lines(v@),
        decreases n - pos,
    {
        let ghost rest = v@.skip(pos as int);
        let ghost prefix = views_of(out@);
        let end: usize;
        let next: usize;
        match find_char_from(v, pos, '\n') {
            Some(i) => {
                proof {
                    assert forall|k: int| 0 <= k < i - pos implies rest[k] != '\n' by {
                        assert(rest[k] == v@[pos + k]);
                    }
                    assert(rest[i - pos] == '\n');
                    lemma_find_first_at(rest, '\n', i - pos);
                }
                end = i;
                next = i + 1;
            },
            None => {
                proof {
                    assert forall|k: int| 0 <= k < rest.len() implies rest[k] != '\n' by {
                        assert(rest[k] == v@[pos + k]);
                    }
                    lemma_find_first_none(rest, '\n');
                }
                end = n;
                next = n;
            },
        }
        let ghost segment = v@.subrange(pos as int, end as int);
        proof {
            if end < n {
                assert(rest.take(end - pos) =~= segment);
                assert(rest.skip(end - pos + 1) =~= v@.skip(end + 1));
            } else {
                assert(rest =~= segment);
            }
        }
        let line: Vec<char> = if end > pos && v[end - 1] == '\r' {
            proof {
                assert(segment.last() == v@[end - 1]);
                assert(segment.drop_last() =~= v@.subrange(pos as int, end - 1));
            }
            subvec(v, pos, end - 1)
        } else {
            subvec(v, pos, end)
        };
        proof {
            assert(line@ == spec_strip_cr(segment));
        }
        out.push(line);
        pos = next;
        proof {
            assert(views_of(out@) =~= prefix.push(line@));
            assert(prefix.push(line@) + spec_lines(v@.skip(pos as int)) =~= prefix + (seq![
                line@,
            ] + spec_lines(v@.skip(pos as int))));
            assert(views_of(out@) + spec_lines(v@.skip(pos as int)) =~= spec_lines(v@));
        }
    }
    proof {
        assert(v@.skip(n as int) =~= Seq::<char>::empty());
        assert(views_of(out@) + spec_lines(v@.skip(n as int)) =~= views_of(out@));
    }
    out
}

/// The entries one line contributes: none for a skipped or malformed line.
pub open spec fn spec_line_pairs(l: Seq<char>) -> Seq<(Seq<char>, Seq<char>)> {
    if spec_skip_line(l) {
        Seq::empty()
    } else {
        match spec_parse_line(l) {
            Some(p) => seq![p],
            None => Seq::empty(),
        }
    }
}

/// The entries a sequence of lines contributes, in order.
pub open spec fn spec_lines_pairs(lines: Seq<Seq<char>>) -> Seq<(Seq<char>, Seq<char>)>
    decreases lines.len(),
{
    if lines.len() == 0 {
        Seq::empty()
    } else {
        spec_line_pairs(lines[0]) + spec_lines_pairs(lines.skip(1))
    }
}

/// The entries one resource file contributes.
pub open spec fn spec_file_pairs(content: Seq<char>) -> Seq<(Seq<char>, Seq<char>)> {
    spec_lines_pairs(spec_lines(content))
}

/// The views of a vector of string pairs.
pub open spec fn pair_views(ps: Seq<(String, String)>) -> Seq<(Seq<char>, Seq<char>)> {
    ps.map_values(|p: (String, String)| (p.0@, p.1@))
}

/// Parses the text of one resource file into its (key, value) entries, in
/// line order.
pub fn parse_yaml(data: &str) -> (r: Vec<(String, String)>)
    ensures
        pair_views(r@) == spec_file_pairs(data@),
{
    let chars = str_to_chars(data);
    let lines = split_lines(&chars);
    let ghost lv = spec_lines(data@);
    let mut out: Vec<(String, String)> = Vec::new();
    let mut j: usize = 0;
    proof {
        assert(lv.skip(0) =~= lv);
        assert(pair_views(out@) + spec_lines_pairs(lv) =~= spec_lines_pairs(lv));
    }
    while j < lines.len()
        invariant
            j <= lines@.len(),
            views_of(lines@) == lv,
            lv == spec_lines(data@),
            pair_views(out@) + spec_lines_pairs(lv.skip(j as int)) == spec_lines_pairs(lv),
        decreases lines@.len() - j,
    {
        let ghost prefix = pair_views(out@);
        let ghost line_view = lv[j as int];
        proof {
            assert(views_of(lines@)[j as int] == lines@[j as int]@);
            assert(lv.skip(j as int)[0] == lv[j as int]);
            assert(lv.skip(j as int).skip(1) =~= lv.skip(j + 1));
        }
        let trimmed = trim_chars(&lines[j]);
        let skip_this = trimmed.len() == 0 || trimmed[0] == '#';
        assert(skip_this == spec_skip_line(line_view));
        if !skip_this {
            match parse_line(&lines[j]) {
                Some(p) => {
                    out.push(p);
                    proof {
                        assert(pair_views(out@) =~= prefix.push(
                            (out@.last().0@, out@.last().1@),
                        ));
                        assert(spec_line_pairs(line_view) =~= seq![
                            (out@.last().0@, out@.last().1@),
                        ]);
                    }
                },
                None => {},
            }
        }
        j = j + 1;
        proof {
            assert(pair_views(out@) + spec_lines_pairs(lv.skip(j as int)) =~= spec_lines_pairs(
                lv,
            ));
        }
    }
    proof {
        assert(lv.skip(lv.len() as int) =~= Seq::<Seq<char>>::empty());
        assert(pair_views(out@) + spec_lines_pairs(lv.skip(lv.len() as int)) =~= pair_views(
            out@,
        ));
    }
    out
}

/// The mapping a sequence of entries denotes; a later entry for the same key
/// wins.
pub open spec fn spec_catalog_map(entries: Seq<(String, String)>) -> Map<Seq<char>, Seq<char>>
    decreases entries.len(),
{
    if entries.len() == 0 {
        Map::empty()
    } else {
        spec_catalog_map(entries.drop_last()).insert(entries.last().0@, entries.last().1@)
    }
}

/// The key-to-template mapping used to expand name templates. Immutable
/// after load; read through [`Catalog::lookup`].
#[derive(Debug)]
pub struct Catalog {
    entries: Vec<(String, String)>,
}

impl View for Catalog {
    type V = Map<Seq<char>, Seq<char>>;

    closed spec fn view(&self) -> Map<Seq<char>, Seq<char>> {
        spec_catalog_map(self.entries@)
    }
}

/// The one unrecoverable condition: an empty resource set, against which no
/// name could ever resolve.
#[derive(Debug, PartialEq, Eq)]
pub enum CatalogError {
    NoResources,
}

impl CatalogError {
    /// A human-readable account of the failure.
    pub fn message(&self) -> (r: String)
        ensures
            r@ == "no localization resources could be loaded"@,
    {
        "no localization resources could be loaded".to_owned()
    }
}

impl Catalog {
    /// An empty catalog.
    pub fn new() -> (r: Catalog)
        ensures
            r@ == Map::<Seq<char>, Seq<char>>::empty(),
    {
        Catalog { entries: Vec::new() }
    }

    /// Adds an entry, overwriting any earlier one for the same key.
    pub fn insert(&mut self, key: String, value: String)
        ensures
            final (self)@ == old(self)@.insert(key@, value@),
    {
        let ghost prior = self.entries@;
        self.entries.push((key, value));
        proof {
            assert(self.entries@.drop_last() =~= prior);
        }
    }

    /// Looks a key up; yields the template inserted last for it, if any.
    pub fn lookup(&self, key: &str) -> (r: Option<String>)
        ensures
            match r {
                Some(v) => self@.contains_key(key@) && v@ == self@[key@],
                None => !self@.contains_key(key@),
            },
    {
        let n = self.entries.len();
        let mut j: usize = n;
        proof {
            assert(self.entries@.take(n as int) =~= self.entries@);
        }
        loop
            invariant
                j <= n == self.entries@.len(),
                self@.contains_key(key@) == spec_catalog_map(
                    self.entries@.take(j as int),
                ).contains_key(key@),
                self@.contains_key(key@) ==> self@[key@] == spec_catalog_map(
                    self.entries@.take(j as int),
                )[key@],
            decreases j,
        {
            let ghost part = self.entries@.take(j as int);
            if j == 0 {
                assert(part =~= Seq::<(String, String)>::empty());
                return None;
            }
            proof {
                assert(part.drop_last() =~= self.entries@.take(j - 1));
                assert(part.last() == self.entries@[j - 1]);
            }
            if str_eq(self.entries[j - 1].0.as_str(), key) {
                return Some(self.entries[j - 1].1.clone());
            }
            j = j - 1;
        }
    }

    /// Whether the catalog holds an entry for the key.
    pub fn contains(&self, key: &str) -> (r: bool)
        ensures
            r == self@.contains_key(key@),
    {
        match self.lookup(key) {
            Some(_) => true,
            None => false,
        }
    }

    /// Adds an entry only when the key has none yet.
    pub fn insert_if_absent(&mut self, key: &str, value: &str)
        ensures
            final (self)@ == spec_insert_absent(old(self)@, key@, value@),
    {
        if !self.contains(key) {
            self.insert(key.to_owned(), value.to_owned());
        }
    }
}

/// `m` with `k -> v` added only when `k` is unmapped.
pub open spec fn spec_insert_absent(
    m: Map<Seq<char>, Seq<char>>,
    k: Seq<char>,
    v: Seq<char>,
) -> Map<Seq<char>, Seq<char>> {
    if m.contains_key(k) {
        m
    } else {
        m.insert(k, v)
    }
}

/// `m` after folding in a sequence of entries, in order.
pub open spec fn spec_apply_pairs(
    m: Map<Seq<char>, Seq<char>>,
    ps: Seq<(Seq<char>, Seq<char>)>,
) -> Map<Seq<char>, Seq<char>>
    decreases ps.len(),
{
    if ps.len() == 0 {
        m
    } else {
        spec_apply_pairs(m.insert(ps[0].0, ps[0].1), ps.skip(1))
    }
}

/// `m` after folding in every file's entries, in file order.
pub open spec fn spec_load_from(
    m: Map<Seq<char>, Seq<char>>,
    files: Seq<Seq<char>>,
) -> Map<Seq<char>, Seq<char>>
    decreases files.len(),
{
    if files.len() == 0 {
        m
    } else {
        spec_load_from(spec_apply_pairs(m, spec_file_pairs(files[0])), files.skip(1))
    }
}

/// `m` completed with the built-in grammar templates: the adjective
/// agreement template and the two leader-name templates, each only when the
/// resources did not define it.
pub open spec fn spec_with_builtins(m: Map<Seq<char>, Seq<char>>) -> Map<Seq<char>, Seq<char>> {
    spec_insert_absent(
        spec_insert_absent(
            spec_insert_absent(m, "%ADJECTIVE%"@, "$adjective$ $1$"@),
            "%LEADER_1%"@,
            "$1$ $2$"@,
        ),
        "%LEADER_2%"@,
        "$1$ $2$"@,
    )
}

/// The views of a vector of strings.
pub open spec fn string_views(ss: Seq<String>) -> Seq<Seq<char>> {
    ss.map_values(|s: String| s@)
}

/// The mapping a set of resource file texts loads to.
pub open spec fn spec_load(files: Seq<Seq<char>>) -> Map<Seq<char>, Seq<char>> {
    spec_with_builtins(spec_load_from(Map::empty(), files))
}

/// Builds the catalog out of the texts of the localization resource files.
/// An empty resource set is rejected; every other input loads, malformed
/// lines being dropped silently.
pub fn load(files: &Vec<String>) -> (r: Result<Catalog, CatalogError>)
    ensures
        r is Err <==> files@.len() == 0,
        match r {
            Ok(c) => c@ == spec_load(string_views(files@)),
            Err(e) => e == CatalogError::NoResources,
        },
{
    if files.len() == 0 {
        return Err(CatalogError::NoResources);
    }
    let ghost fv = string_views(files@);
    let mut cat = Catalog::new();
    let mut i: usize = 0;
    proof {
        assert(fv.skip(0) =~= fv);
    }
    while i < files.len()
        invariant
            i <= files@.len(),
            fv == string_views(files@),
            spec_load_from(cat@, fv.skip(i as int)) == spec_load_from(
                Map::empty(),
                fv,
            ),
        decreases files@.len() - i,
    {
        proof {
            assert(fv[i as int] == files@[i as int]@);
            assert(fv.skip(i as int)[0] == fv[i as int]);
            assert(fv.skip(i as int).skip(1) =~= fv.skip(i + 1));
        }
        let pairs = parse_yaml(files[i].as_str());
        let ghost pv = spec_file_pairs(files@[i as int]@);
        let ghost cat_at_file = cat@;
        let mut j: usize = 0;
        proof {
            assert(pv.skip(0) =~= pv);
        }
        while j < pairs.len()
            invariant
                j <= pairs@.len(),
                pair_views(pairs@) == pv,
                spec_apply_pairs(cat@, pv.skip(j as int)) == spec_apply_pairs(
                    cat_at_file,
                    pv,
                ),
            decreases pairs@.len() - j,
        {
            proof {
                let jj = j as int;
                assert(pair_views(pairs@)[jj] == (pairs@[jj].0@, pairs@[jj].1@));
                assert(pv.skip(jj)[0] == pv[jj]);
                assert(pv.skip(jj).skip(1) =~= pv.skip(jj + 1));
            }
            let key = pairs[j].0.clone();
            let value = pairs[j].1.clone();
            cat.insert(key, value);
            j = j + 1;
        }
        proof {
            assert(pv.skip(pv.len() as int) =~= Seq::<(Seq<char>, Seq<char>)>::empty());
        }
        i = i + 1;
    }
    proof {
        assert(fv.skip(fv.len() as int) =~= Seq::<Seq<char>>::empty());
    }
    cat.insert_if_absent("%ADJECTIVE%", "$adjective$ $1$");
    cat.insert_if_absent("%LEADER_1%", "$1$ $2$");
    cat.insert_if_absent("%LEADER_2%", "$1$ $2$");
    Ok(cat)
}

} // verus!
