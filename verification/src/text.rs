//! Character-sequence utilities: conversions between `String` and `Vec<char>`,
//! substring search, non-overlapping replacement, trimming, decoration
//! stripping, and decimal rendering of integers.

use vstd::prelude::*;

verus! {

use vstd::string::StrSliceExecFns;

/// Relies on alloc's `String::push`: appends exactly the given character at
/// the end of the string.
pub assume_specification[ String::push ](s: &mut String, c: char)
    ensures
        final (s)@ == old(s)@.push(c),
;

/// Collects the characters of a string slice into a vector.
pub fn str_to_chars(s: &str) -> (r: Vec<char>)
    ensures
        r@ == s@,
{
    let n = s.unicode_len();
    let mut r: Vec<char> = Vec::new();
    let mut i: usize = 0;
    while i < n
        invariant
            n == s@.len(),
            i <= n,
            r@ == s@.subrange(0, i as int),
        decreases n - i,
    {
        r.push(s.get_char(i));
        i = i + 1;
        assert(r@ =~= s@.subrange(0, i as int));
    }
    assert(s@.subrange(0, n as int) =~= s@);
    r
}

/// Builds a string out of a vector of characters.
pub fn chars_to_string(v: &Vec<char>) -> (r: String)
    ensures
        r@ == v@,
{
    let mut r = String::new();
    let mut i: usize = 0;
    while i < v.len()
        invariant
            i <= v@.len(),
            r@ == v@.subrange(0, i as int),
        decreases v@.len() - i,
    {
        r.push(v[i]);
        i = i + 1;
        assert(r@ =~= v@.subrange(0, i as int));
    }
    assert(v@.subrange(0, v@.len() as int) =~= v@);
    r
}

/// The pattern occurs in the haystack starting at position `i`.
pub open spec fn spec_match_at(hay: Seq<char>, pat: Seq<char>, i: int) -> bool {
    0 <= i && i + pat.len() <= hay.len() && hay.subrange(i, i + pat.len()) == pat
}

/// The pattern occurs somewhere in the haystack.
pub open spec fn spec_contains(hay: Seq<char>, pat: Seq<char>) -> bool {
    exists|i: int| spec_match_at(hay, pat, i)
}

fn match_at(hay: &Vec<char>, pat: &Vec<char>, i: usize) -> (r: bool)
    requires
        i + pat@.len() <= hay@.len(),
    ensures
        r == spec_match_at(hay@, pat@, i as int),
{
    let hlen = hay.len();
    let mut j: usize = 0;
    while j < pat.len()
        invariant
            i + pat@.len() <= hay@.len(),
            hay@.len() == hlen,
            j <= pat@.len(),
            forall|k: int| 0 <= k < j ==> hay@[i + k] == pat@[k],
        decreases pat@.len() - j,
    {
        assert(i + j < hay@.len());
        if hay[i + j] != pat[j] {
            assert(hay@.subrange(i as int, i + pat@.len())[j as int] != pat@[j as int]);
            return false;
        }
        j = j + 1;
    }
    assert(hay@.subrange(i as int, i + pat@.len()) =~= pat@);
    true
}

/// Substring search; reports whether `pat` occurs anywhere in `hay`.
pub fn contains_chars(hay: &Vec<char>, pat: &Vec<char>) -> (r: bool)
    ensures
        r == spec_contains(hay@, pat@),
{
    if pat.len() == 0 {
        assert(hay@.subrange(0, 0) =~= pat@);
        assert(spec_match_at(hay@, pat@, 0));
        return true;
    }
    if pat.len() > hay.len() {
        assert(forall|i: int| !spec_match_at(hay@, pat@, i));
        return false;
    }
    let hlen = hay.len();
    let bound = hlen - pat.len();
    let mut i: usize = 0;
    loop
        invariant
            1 <= pat@.len() <= hay@.len(),
            hay@.len() == hlen,
            bound == hay@.len() - pat@.len(),
            i <= bound + 1,
            forall|k: int| 0 <= k < i ==> !spec_match_at(hay@, pat@, k),
        ensures
            forall|k: int| !spec_match_at(hay@, pat@, k),
        decreases bound + 1 - i,
    {
        if i > bound {
            assert(forall|k: int| i <= k ==> !spec_match_at(hay@, pat@, k));
            break ;
        }
        if match_at(hay, pat, i) {
            assert(spec_contains(hay@, pat@));
            return true;
        }
        i = i + 1;
    }
    false
}

/// The result of replacing every non-overlapping occurrence of `pat` in `s`
/// by `rep`, scanning left to right. An empty pattern leaves `s` unchanged.
pub open spec fn spec_replace(s: Seq<char>, pat: Seq<char>, rep: Seq<char>) -> Seq<char>
    decreases s.len(),
{
    if pat.len() == 0 || s.len() < pat.len() {
        s
    } else if s.subrange(0, pat.len() as int) == pat {
        rep + spec_replace(s.skip(pat.len() as int), pat, rep)
    } else {
        seq![s[0]] + spec_replace(s.skip(1), pat, rep)
    }
}

proof fn lemma_replace_step_match(hay: Seq<char>, pat: Seq<char>, rep: Seq<char>, i: int)
    requires
        pat.len() > 0,
        0 <= i,
        i + pat.len() <= hay.len(),
        hay.subrange(i, i + pat.len()) == pat,
    ensures
        spec_replace(hay.skip(i), pat, rep) == rep + spec_replace(
            hay.skip(i + pat.len()),
            pat,
            rep,
        ),
{
    let rest = hay.skip(i);
    assert(rest.subrange(0, pat.len() as int) =~= hay.subrange(i, i + pat.len()));
    assert(rest.skip(pat.len() as int) =~= hay.skip(i + pat.len()));
}

proof fn lemma_replace_step_char(hay: Seq<char>, pat: Seq<char>, rep: Seq<char>, i: int)
    requires
        pat.len() > 0,
        0 <= i < hay.len(),
        i + pat.len() <= hay.len() ==> hay.subrange(i, i + pat.len()) != pat,
    ensures
        spec_replace(hay.skip(i), pat, rep) == seq![hay[i]] + spec_replace(
            hay.skip(i + 1),
            pat,
            rep,
        ),
{
    let rest = hay.skip(i);
    assert(rest =~= seq![hay[i]] + rest.skip(1));
    assert(rest.skip(1) =~= hay.skip(i + 1));
    if rest.len() >= pat.len() {
        assert(rest.subrange(0, pat.len() as int) =~= hay.subrange(i, i + pat.len()));
    } else {
        assert(spec_replace(rest, pat, rep) == rest);
        assert(spec_replace(rest.skip(1), pat, rep) == rest.skip(1));
    }
}

/// Replaces every non-overlapping occurrence of `pat` in `hay` by `rep`.
pub fn replace_chars(hay: &Vec<char>, pat: &Vec<char>, rep: &Vec<char>) -> (r: Vec<char>)
    requires
        pat@.len() > 0,
    ensures
        r@ == spec_replace(hay@, pat@, rep@),
{
    let mut out: Vec<char> = Vec::new();
    let mut i: usize = 0;
    proof {
        assert(hay@.skip(0) =~= hay@);
        assert(Seq::<char>::empty() + spec_replace(hay@, pat@, rep@) =~= spec_replace(
            hay@,
            pat@,
            rep@,
        ));
    }
    while i < hay.len()
        invariant
            i <= hay@.len(),
            pat@.len() > 0,
            spec_replace(hay@, pat@, rep@) == out@ + spec_replace(
                hay@.skip(i as int),
                pat@,
                rep@,
            ),
        decreases hay@.len() - i,
    {
        let ghost prefix = out@;
        if hay.len() - i >= pat.len() && match_at(hay, pat, i) {
            proof {
                lemma_replace_step_match(hay@, pat@, rep@, i as int);
            }
            let mut j: usize = 0;
            while j < rep.len()
                invariant
                    j <= rep@.len(),
                    out@ == prefix + rep@.subrange(0, j as int),
                decreases rep@.len() - j,
            {
                out.push(rep[j]);
                j = j + 1;
                assert(out@ =~= prefix + rep@.subrange(0, j as int));
            }
            proof {
                assert(rep@.subrange(0, rep@.len() as int) =~= rep@);
                assert(prefix + (rep@ + spec_replace(hay@.skip(i + pat@.len()), pat@, rep@))
                    =~= out@ + spec_replace(hay@.skip(i + pat@.len()), pat@, rep@));
            }
            i = i + pat.len();
        } else {
            proof {
                lemma_replace_step_char(hay@, pat@, rep@, i as int);
                assert(prefix + (seq![hay@[i as int]] + spec_replace(hay@.skip(i + 1), pat@, rep@))
                    =~= (prefix + seq![hay@[i as int]]) + spec_replace(
                    hay@.skip(i + 1),
                    pat@,
                    rep@,
                ));
            }
            out.push(hay[i]);
            assert(out@ =~= prefix + seq![hay@[i as int]]);
            i = i + 1;
        }
    }
    proof {
        assert(hay@.skip(hay@.len() as int) =~= Seq::<char>::empty());
    }
    out
}

/// Whitespace characters recognised when trimming.
pub open spec fn is_space(c: char) -> bool {
    c == ' ' || c == '\t' || c == '\r' || c == '\n'
}

/// `s` without its leading whitespace.
pub open spec fn spec_trim_start(s: Seq<char>) -> Seq<char>
    decreases s.len(),
{
    if s.len() > 0 && is_space(s[0]) {
        spec_trim_start(s.skip(1))
    } else {
        s
    }
}

/// `s` without its trailing whitespace.
pub open spec fn spec_trim_end(s: Seq<char>) -> Seq<char>
    decreases s.len(),
{
    if s.len() > 0 && is_space(s.last()) {
        spec_trim_end(s.drop_last())
    } else {
        s
    }
}

/// `s` without leading and trailing whitespace.
pub open spec fn spec_trim(s: Seq<char>) -> Seq<char> {
    spec_trim_end(spec_trim_start(s))
}

proof fn lemma_trim_start_skip(s: Seq<char>, a: int)
    requires
        0 <= a <= s.len(),
        forall|k: int| 0 <= k < a ==> is_space(s[k]),
        a == s.len() || !is_space(s[a]),
    ensures
        spec_trim_start(s) == s.skip(a),
    decreases a,
{
    if a == 0 {
        assert(s.skip(0) =~= s);
    } else {
        assert(is_space(s[0]));
        lemma_trim_start_skip(s.skip(1), a - 1);
        assert(s.skip(1).skip(a - 1) =~= s.skip(a));
    }
}

proof fn lemma_trim_end_take(s: Seq<char>, b: int)
    requires
        0 <= b <= s.len(),
        forall|k: int| b <= k < s.len() ==> is_space(s[k]),
        b == 0 || !is_space(s[b - 1]),
    ensures
        spec_trim_end(s) == s.take(b),
    decreases s.len() - b,
{
    if b == s.len() {
        assert(s.take(b) =~= s);
    } else {
        assert(is_space(s.last()));
        lemma_trim_end_take(s.drop_last(), b);
        assert(s.drop_last().take(b) =~= s.take(b));
    }
}

/// Removes leading and trailing whitespace.
pub fn trim_chars(v: &Vec<char>) -> (r: Vec<char>)
    ensures
        r@ == spec_trim(v@),
{
    let n = v.len();
    let mut a: usize = 0;
    while a < n && is_space_char(v[a])
        invariant
            n == v@.len(),
            a <= n,
            forall|k: int| 0 <= k < a ==> is_space(v@[k]),
        decreases n - a,
    {
        a = a + 1;
    }
    proof {
        lemma_trim_start_skip(v@, a as int);
    }
    let ghost started = v@.skip(a as int);
    let mut b: usize = n;
    while b > a && is_space_char(v[b - 1])
        invariant
            n == v@.len(),
            a <= b <= n,
            forall|k: int| b <= k < n ==> is_space(v@[k]),
        decreases b,
    {
        b = b - 1;
    }
    proof {
        assert(forall|k: int| b - a <= k < started.len() ==> is_space(#[trigger] started[k]));
        lemma_trim_end_take(started, b - a);
    }
    let mut out: Vec<char> = Vec::new();
    let mut i: usize = a;
    while i < b
        invariant
            a <= i <= b <= n,
            n == v@.len(),
            out@ == v@.subrange(a as int, i as int),
        decreases b - i,
    {
        out.push(v[i]);
        i = i + 1;
        assert(out@ =~= v@.subrange(a as int, i as int));
    }
    proof {
        assert(started.take(b - a) =~= v@.subrange(a as int, b as int));
    }
    out
}

/// Tests a character for whitespace.
pub fn is_space_char(c: char) -> (r: bool)
    ensures
        r == is_space(c),
{
    c == ' ' || c == '\t' || c == '\r' || c == '\n'
}

/// The first occurrence of `c` in `v` at or after `from`, if any.
pub fn find_char_from(v: &Vec<char>, from: usize, c: char) -> (r: Option<usize>)
    requires
        from <= v@.len(),
    ensures
        match r {
            Some(i) => from <= i < v@.len() && v@[i as int] == c && forall|k: int|
                from <= k < i ==> v@[k] != c,
            None => forall|k: int| from <= k < v@.len() ==> v@[k] != c,
        },
{
    let mut i: usize = from;
    while i < v.len()
        invariant
            from <= i <= v@.len(),
            forall|k: int| from <= k < i ==> v@[k] != c,
        decreases v@.len() - i,
    {
        if v[i] == c {
            return Some(i);
        }
        i = i + 1;
    }
    None
}

/// Copies the characters of the range `[from, to)` out of `v`.
pub fn subvec(v: &Vec<char>, from: usize, to: usize) -> (r: Vec<char>)
    requires
        from <= to <= v@.len(),
    ensures
        r@ == v@.subrange(from as int, to as int),
{
    let mut r: Vec<char> = Vec::new();
    let mut i: usize = from;
    while i < to
        invariant
            from <= i <= to <= v@.len(),
            r@ == v@.subrange(from as int, i as int),
        decreases to - i,
    {
        r.push(v[i]);
        i = i + 1;
        assert(r@ =~= v@.subrange(from as int, i as int));
    }
    r
}

/// Decoration characters removed from an expanded template.
pub open spec fn is_decoration(c: char) -> bool {
    c == '$' || c == '[' || c == ']'
}

/// `s` without any decoration characters.
pub open spec fn spec_strip(s: Seq<char>) -> Seq<char>
    decreases s.len(),
{
    if s.len() == 0 {
        Seq::empty()
    } else if is_decoration(s[0]) {
        spec_strip(s.skip(1))
    } else {
        seq![s[0]] + spec_strip(s.skip(1))
    }
}

/// Removes every decoration character.
pub fn strip_chars(v: &Vec<char>) -> (r: Vec<char>)
    ensures
        r@ == spec_strip(v@),
{
    let mut out: Vec<char> = Vec::new();
    let mut i: usize = 0;
    proof {
        assert(v@.skip(0) =~= v@);
        assert(Seq::<char>::empty() + spec_strip(v@) =~= spec_strip(v@));
    }
    while i < v.len()
        invariant
            i <= v@.len(),
            spec_strip(v@) == out@ + spec_strip(v@.skip(i as int)),
        decreases v@.len() - i,
    {
        let ghost rest = v@.skip(i as int);
        let c = v[i];
        if !(c == '$' || c == '[' || c == ']') {
            out.push(c);
        }
        i = i + 1;
        proof {
            assert(rest.skip(1) =~= v@.skip(i as int));
            assert(out@ + spec_strip(v@.skip(i as int)) =~= spec_strip(v@));
        }
    }
    proof {
        assert(v@.skip(v@.len() as int) =~= Seq::<char>::empty());
    }
    out
}

/// The decimal digit character for a value below ten.
pub open spec fn spec_digit_char(d: nat) -> char {
    if d == 0 {
        '0'
    } else if d == 1 {
        '1'
    } else if d == 2 {
        '2'
    } else if d == 3 {
        '3'
    } else if d == 4 {
        '4'
    } else if d == 5 {
        '5'
    } else if d == 6 {
        '6'
    } else if d == 7 {
        '7'
    } else if d == 8 {
        '8'
    } else {
        '9'
    }
}

/// The decimal digit sequence of a natural number, most significant first.
pub open spec fn spec_nat_chars(n: nat) -> Seq<char>
    decreases n,
{
    if n < 10 {
        seq![spec_digit_char(n)]
    } else {
        spec_nat_chars(n / 10).push(spec_digit_char(n % 10))
    }
}

/// The decimal rendering of an integer, with a leading minus sign when
/// negative.
pub open spec fn spec_int_chars(n: int) -> Seq<char> {
    if n < 0 {
        seq!['-'] + spec_nat_chars((-n) as nat)
    } else {
        spec_nat_chars(n as nat)
    }
}

fn digit_char(d: u64) -> (c: char)
    requires
        d < 10,
    ensures
        c == spec_digit_char(d as nat),
{
    if d == 0 {
        '0'
    } else if d == 1 {
        '1'
    } else if d == 2 {
        '2'
    } else if d == 3 {
        '3'
    } else if d == 4 {
        '4'
    } else if d == 5 {
        '5'
    } else if d == 6 {
        '6'
    } else if d == 7 {
        '7'
    } else if d == 8 {
        '8'
    } else {
        '9'
    }
}

/// The decimal digits of an unsigned value.
pub fn u64_to_chars(n: u64) -> (r: Vec<char>)
    ensures
        r@ == spec_nat_chars(n as nat),
    decreases n,
{
    if n < 10 {
        let mut v: Vec<char> = Vec::new();
        v.push(digit_char(n));
        v
    } else {
        let mut v = u64_to_chars(n / 10);
        v.push(digit_char(n % 10));
        v
    }
}

/// Renders an unsigned value in decimal.
pub fn u64_to_string(n: u64) -> (r: String)
    ensures
        r@ == spec_nat_chars(n as nat),
{
    let v = u64_to_chars(n);
    chars_to_string(&v)
}

/// Renders a signed value in decimal.
pub fn i64_to_string(n: i64) -> (r: String)
    ensures
        r@ == spec_int_chars(n as int),
{
    if n < 0 {
        let m: u64 = (-(n as i128)) as u64;
        let digits = u64_to_chars(m);
        let mut v: Vec<char> = Vec::new();
        v.push('-');
        assert(v@ =~= seq!['-'] + digits@.subrange(0, 0));
        let mut i: usize = 0;
        while i < digits.len()
            invariant
                i <= digits@.len(),
                v@ == seq!['-'] + digits@.subrange(0, i as int),
            decreases digits@.len() - i,
        {
            v.push(digits[i]);
            i = i + 1;
            assert(v@ =~= seq!['-'] + digits@.subrange(0, i as int));
        }
        proof {
            assert(digits@.subrange(0, digits@.len() as int) =~= digits@);
        }
        chars_to_string(&v)
    } else {
        u64_to_string(n as u64)
    }
}

/// Compares two string slices character by character.
pub fn str_eq(a: &str, b: &str) -> (r: bool)
    ensures
        r == (a@ == b@),
{
    let va = str_to_chars(a);
    let vb = str_to_chars(b);
    chars_eq(&va, &vb)
}

/// Two equal-length character vectors hold the same characters.
pub fn chars_eq(a: &Vec<char>, b: &Vec<char>) -> (r: bool)
    ensures
        r == (a@ == b@),
{
    if a.len() != b.len() {
        assert(a@ != b@);
        return false;
    }
    let mut i: usize = 0;
    while i < a.len()
        invariant
            a@.len() == b@.len(),
            i <= a@.len(),
            forall|k: int| 0 <= k < i ==> a@[k] == b@[k],
        decreases a@.len() - i,
    {
        if a[i] != b[i] {
            return false;
        }
        i = i + 1;
    }
    proof {
        assert(a@ =~= b@);
    }
    true
}

} // verus!

