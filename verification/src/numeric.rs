//! Fixed-point observation values.
//!
//! Metric observations carry a numeric value with six decimal places, stored
//! as a count of millionths. Integer and textual sources are coerced into
//! this form; a magnitude that does not fit is coerced to zero rather than
//! propagated.

use vstd::prelude::*;

verus! {

use crate::text::find_char_from;

/// Millionths in one unit.
pub const MICROS_PER_UNIT: i64 = 1_000_000;

/// A fixed-point numeric value: `micros` millionths of a unit.
#[derive(Clone, Copy, Debug, PartialEq, Eq, Structural)]
pub struct Fixed {
    pub micros: i64,
}

/// Clamps an exact count of millionths into the representable range; an
/// out-of-range magnitude becomes zero.
pub open spec fn spec_clamp_micros(m: int) -> i64 {
    if i64::MIN <= m <= i64::MAX {
        m as i64
    } else {
        0
    }
}

/// The fixed-point value of a whole number of units.
pub open spec fn spec_fixed_from_int(i: int) -> Fixed {
    Fixed { micros: spec_clamp_micros(i * (MICROS_PER_UNIT as int)) }
}

impl Fixed {
    /// The zero value.
    pub fn zero() -> (r: Fixed)
        ensures
            r.micros == 0,
    {
        Fixed { micros: 0 }
    }

    /// Builds a value from a raw count of millionths.
    pub fn from_micros(m: i64) -> (r: Fixed)
        ensures
            r.micros == m,
    {
        Fixed { micros: m }
    }

    /// Widens a whole number of units, coercing an unrepresentable
    /// magnitude to zero.
    pub fn from_int(i: i64) -> (r: Fixed)
        ensures
            r == spec_fixed_from_int(i as int),
    {
        proof {
            assert((i as int) * 1_000_000 <= i64::MAX * 1_000_000 && (i as int) * 1_000_000
                >= i64::MIN * 1_000_000) by (nonlinear_arith)
                requires
                    i64::MIN <= i as int <= i64::MAX,
            ;
        }
        let wide: i128 = (i as i128) * 1_000_000i128;
        if i64::MIN as i128 <= wide && wide <= i64::MAX as i128 {
            Fixed { micros: wide as i64 }
        } else {
            Fixed { micros: 0 }
        }
    }
}

/// Widens a collection length into a fixed-point value; an unrepresentable
/// length becomes zero.
pub fn fixed_from_len(l: usize) -> (r: Fixed)
    ensures
        r == spec_fixed_from_int(l as int),
{
    if (l as u64) <= 9_223_372_036_854u64 {
        Fixed::from_int(l as i64)
    } else {
        proof {
            assert((l as int) * 1_000_000 > i64::MAX) by (nonlinear_arith)
                requires
                    l as int >= 9_223_372_036_855,
            ;
        }
        Fixed { micros: 0 }
    }
}

/// One of the ten decimal digit characters.
pub open spec fn is_digit(c: char) -> bool {
    c == '0' || c == '1' || c == '2' || c == '3' || c == '4' || c == '5' || c == '6' || c == '7'
        || c == '8' || c == '9'
}

/// The numeric value of a decimal digit character.
pub open spec fn spec_digit_val(c: char) -> nat {
    if c == '0' {
        0
    } else if c == '1' {
        1
    } else if c == '2' {
        2
    } else if c == '3' {
        3
    } else if c == '4' {
        4
    } else if c == '5' {
        5
    } else if c == '6' {
        6
    } else if c == '7' {
        7
    } else if c == '8' {
        8
    } else {
        9
    }
}

/// Every character of `s` is a decimal digit.
pub open spec fn all_digits(s: Seq<char>) -> bool {
    forall|i: int| 0 <= i < s.len() ==> is_digit(#[trigger] s[i])
}

/// The value of a sequence of decimal digit characters, most significant
/// first.
pub open spec fn spec_digits_val(s: Seq<char>) -> nat
    decreases s.len(),
{
    if s.len() == 0 {
        0
    } else {
        spec_digits_val(s.drop_last()) * 10 + spec_digit_val(s.last())
    }
}

/// Ten to a small power.
pub open spec fn spec_pow10(n: nat) -> nat
    decreases n,
{
    if n == 0 {
        1
    } else {
        10 * spec_pow10((n - 1) as nat)
    }
}

/// The count of millionths contributed by a fraction-digit sequence: only
/// the first six digits are significant.
pub open spec fn spec_frac_micros(s: Seq<char>) -> nat {
    if s.len() >= 6 {
        spec_digits_val(s.take(6))
    } else {
        spec_digits_val(s) * spec_pow10((6 - s.len()) as nat)
    }
}

/// Whether `s` is a plain decimal number: an optional minus sign, one or
/// more digits, and optionally a point followed by one or more digits.
pub open spec fn spec_fixed_text_valid(s: Seq<char>) -> bool {
    let body = if s.len() > 0 && s[0] == '-' {
        s.skip(1)
    } else {
        s
    };
    if body.contains('.') {
        let dot = body.index_of('.');
        &&& dot >= 1
        &&& dot < body.len() - 1
        &&& all_digits(body.take(dot))
        &&& all_digits(body.skip(dot + 1))
    } else {
        body.len() >= 1 && all_digits(body)
    }
}

/// The value denoted by a valid decimal text, as an exact count of
/// millionths.
pub open spec fn spec_fixed_text_micros(s: Seq<char>) -> int {
    let neg = s.len() > 0 && s[0] == '-';
    let body = if neg {
        s.skip(1)
    } else {
        s
    };
    let mag: int = if body.contains('.') {
        let dot = body.index_of('.');
        spec_digits_val(body.take(dot)) * (MICROS_PER_UNIT as int) + spec_frac_micros(
            body.skip(dot + 1),
        )
    } else {
        spec_digits_val(body) * (MICROS_PER_UNIT as int)
    };
    if neg {
        -mag
    } else {
        mag
    }
}

/// The result of parsing a decimal text: the denoted value with an
/// out-of-range magnitude coerced to zero, or nothing when the text is not
/// a plain decimal number.
pub open spec fn spec_parse_fixed(s: Seq<char>) -> Option<Fixed> {
    if spec_fixed_text_valid(s) {
        Some(Fixed { micros: spec_clamp_micros(spec_fixed_text_micros(s)) })
    } else {
        None
    }
}

proof fn lemma_digits_val_all_zero(s: Seq<char>)
    requires
        forall|i: int| 0 <= i < s.len() ==> s[i] == '0',
    ensures
        spec_digits_val(s) == 0,
    decreases s.len(),
{
    if s.len() > 0 {
        lemma_digits_val_all_zero(s.drop_last());
    }
}

proof fn lemma_digits_val_zero_prefix(z: Seq<char>, t: Seq<char>)
    requires
        forall|i: int| 0 <= i < z.len() ==> z[i] == '0',
    ensures
        spec_digits_val(z + t) == spec_digits_val(t),
    decreases t.len(),
{
    if t.len() == 0 {
        assert(z + t =~= z);
        lemma_digits_val_all_zero(z);
    } else {
        assert((z + t).drop_last() =~= z + t.drop_last());
        assert((z + t).last() == t.last());
        lemma_digits_val_zero_prefix(z, t.drop_last());
    }
}

proof fn lemma_pow10_pos(a: nat)
    ensures
        spec_pow10(a) >= 1,
    decreases a,
{
    if a > 0 {
        lemma_pow10_pos((a - 1) as nat);
    }
}

proof fn lemma_pow10_mono(a: nat, b: nat)
    requires
        a <= b,
    ensures
        spec_pow10(a) <= spec_pow10(b),
        spec_pow10(a) >= 1,
    decreases b,
{
    lemma_pow10_pos(a);
    if a < b {
        lemma_pow10_mono(a, (b - 1) as nat);
    }
}

proof fn lemma_digits_val_upper(s: Seq<char>)
    ensures
        spec_digits_val(s) < spec_pow10(s.len()),
    decreases s.len(),
{
    if s.len() == 0 {
    } else {
        lemma_digits_val_upper(s.drop_last());
        assert(spec_digit_val(s.last()) <= 9);
    }
}

proof fn lemma_digits_val_lower(s: Seq<char>)
    requires
        s.len() >= 1,
        s[0] != '0',
        is_digit(s[0]),
    ensures
        spec_digits_val(s) >= spec_pow10((s.len() - 1) as nat),
    decreases s.len(),
{
    if s.len() == 1 {
        assert(spec_digits_val(s) == spec_digits_val(s.drop_last()) * 10 + spec_digit_val(
            s.last(),
        ));
        assert(s.drop_last().len() == 0);
        assert(spec_digit_val(s[0]) >= 1);
    } else {
        assert(s.drop_last()[0] == s[0]);
        lemma_digits_val_lower(s.drop_last());
    }
}

pub fn is_digit_char(c: char) -> (r: bool)
    ensures
        r == is_digit(c),
{
    c == '0' || c == '1' || c == '2' || c == '3' || c == '4' || c == '5' || c == '6' || c == '7'
        || c == '8' || c == '9'
}

fn digit_val_char(c: char) -> (r: u64)
    requires
        is_digit(c),
    ensures
        r == spec_digit_val(c),
{
    if c == '0' {
        0
    } else if c == '1' {
        1
    } else if c == '2' {
        2
    } else if c == '3' {
        3
    } else if c == '4' {
        4
    } else if c == '5' {
        5
    } else if c == '6' {
        6
    } else if c == '7' {
        7
    } else if c == '8' {
        8
    } else {
        9
    }
}

fn check_all_digits(v: &Vec<char>, from: usize, to: usize) -> (r: bool)
    requires
        from <= to <= v@.len(),
    ensures
        r == all_digits(v@.subrange(from as int, to as int)),
{
    let ghost sub = v@.subrange(from as int, to as int);
    let mut i: usize = from;
    while i < to
        invariant
            from <= i <= to <= v@.len(),
            sub == v@.subrange(from as int, to as int),
            forall|k: int| 0 <= k < i - from ==> is_digit(#[trigger] sub[k]),
        decreases to - i,
    {
        if !is_digit_char(v[i]) {
            assert(sub[i - from] == v@[i as int]);
            return false;
        }
        assert(sub[i - from] == v@[i as int]);
        i = i + 1;
    }
    true
}

fn digits_u64(v: &Vec<char>, from: usize, to: usize) -> (r: u64)
    requires
        from <= to <= v@.len(),
        to - from <= 13,
        all_digits(v@.subrange(from as int, to as int)),
    ensures
        r == spec_digits_val(v@.subrange(from as int, to as int)),
        r < spec_pow10((to - from) as nat),
        r < 10_000_000_000_000u64,
{
    let ghost sub = v@.subrange(from as int, to as int);
    let mut acc: u64 = 0;
    let mut i: usize = from;
    while i < to
        invariant
            from <= i <= to <= v@.len(),
            to - from <= 13,
            sub == v@.subrange(from as int, to as int),
            all_digits(sub),
            acc == spec_digits_val(sub.take(i - from)),
        decreases to - i,
    {
        proof {
            lemma_digits_val_upper(sub.take(i - from));
            lemma_pow10_mono((i - from) as nat, 12);
            reveal_with_fuel(spec_pow10, 14);
            assert(acc < 1_000_000_000_000);
            assert(sub[i - from] == v@[i as int]);
        }
        let d = digit_val_char(v[i]);
        acc = acc * 10 + d;
        i = i + 1;
        proof {
            assert(sub.take(i - from).drop_last() =~= sub.take(i - 1 - from));
            assert(sub.take(i - from).last() == sub[i - 1 - from]);
        }
    }
    proof {
        assert(sub.take(to - from) =~= sub);
        lemma_digits_val_upper(sub);
        lemma_pow10_mono(sub.len(), 13);
        reveal_with_fuel(spec_pow10, 14);
    }
    acc
}

proof fn lemma_pow10_add(a: nat, b: nat)
    ensures
        spec_pow10(a + b) == spec_pow10(a) * spec_pow10(b),
    decreases a,
{
    if a == 0 {
        assert(spec_pow10(0) == 1);
        assert(1 * spec_pow10(b) == spec_pow10(b)) by (nonlinear_arith);
    } else {
        lemma_pow10_add((a - 1) as nat, b);
        let x = spec_pow10((a - 1) as nat);
        let y = spec_pow10(b);
        assert(a + b > 0);
        assert((a + b - 1) as nat == (a - 1) as nat + b);
        assert(spec_pow10(a + b) == 10 * spec_pow10((a + b - 1) as nat));
        assert(spec_pow10(a + b) == 10 * (x * y));
        assert(spec_pow10(a) == 10 * x);
        assert(10 * (x * y) == (10 * x) * y) by (nonlinear_arith);
    }
}

fn clamp_signed(neg: bool, mag: u64) -> (r: i64)
    ensures
        r == spec_clamp_micros(
            if neg {
                -(mag as int)
            } else {
                mag as int
            },
        ),
{
    if neg {
        if mag <= 9_223_372_036_854_775_808u64 {
            (-(mag as i128)) as i64
        } else {
            0
        }
    } else {
        if mag <= 9_223_372_036_854_775_807u64 {
            mag as i64
        } else {
            0
        }
    }
}

fn pow10_u64(e: usize) -> (r: u64)
    requires
        e <= 6,
    ensures
        r == spec_pow10(e as nat),
{
    proof {
        reveal_with_fuel(spec_pow10, 8);
    }
    if e == 0 {
        1
    } else if e == 1 {
        10
    } else if e == 2 {
        100
    } else if e == 3 {
        1_000
    } else if e == 4 {
        10_000
    } else if e == 5 {
        100_000
    } else {
        1_000_000
    }
}

/// The integer part, in millionths: `Some` of the exact count when the
/// digits' value stays below ten to the thirteenth, `None` otherwise.
fn int_part_micros(v: &Vec<char>, from: usize, to: usize) -> (r: Option<u64>)
    requires
        from <= to <= v@.len(),
        all_digits(v@.subrange(from as int, to as int)),
    ensures
        match r {
            Some(mm) => mm == spec_digits_val(v@.subrange(from as int, to as int)) * 1_000_000
                && mm <= 9_999_999_999_999_000_000u64,
            None => spec_digits_val(v@.subrange(from as int, to as int))
                >= 10_000_000_000_000,
        },
{
    let ghost whole = v@.subrange(from as int, to as int);
    let mut z: usize = from;
    while z < to && v[z] == '0'
        invariant
            from <= z <= to <= v@.len(),
            forall|k: int| from <= k < z ==> v@[k] == '0',
        decreases to - z,
    {
        z = z + 1;
    }
    let ghost zeros = v@.subrange(from as int, z as int);
    let ghost rest = v@.subrange(z as int, to as int);
    proof {
        assert(whole =~= zeros + rest);
        lemma_digits_val_zero_prefix(zeros, rest);
        assert forall|k: int| 0 <= k < rest.len() implies is_digit(#[trigger] rest[k]) by {
            assert(rest[k] == whole[k + z - from]);
        }
    }
    if to - z > 13 {
        proof {
            assert(rest[0] == v@[z as int]);
            lemma_digits_val_lower(rest);
            lemma_pow10_mono(13, (rest.len() - 1) as nat);
            reveal_with_fuel(spec_pow10, 14);
        }
        None
    } else {
        let units = digits_u64(v, z, to);
        proof {
            reveal_with_fuel(spec_pow10, 14);
        }
        Some(units * 1_000_000)
    }
}

proof fn lemma_dot_shape(s: Seq<char>, start: int, fd: int)
    requires
        start == (if s.len() > 0 && s[0] == '-' {
            1int
        } else {
            0int
        }),
        start <= fd < s.len(),
        s[fd] == '.',
        forall|k: int| start <= k < fd ==> s[k] != '.',
        spec_fixed_text_valid(s),
    ensures
        ({
            let body = if s.len() > 0 && s[0] == '-' {
                s.skip(1)
            } else {
                s
            };
            body.index_of('.') == fd - start
        }),
        fd - start >= 1,
        fd < s.len() - 1,
        all_digits(s.subrange(start, fd)),
        all_digits(s.subrange(fd + 1, s.len() as int)),
{
    let body = if s.len() > 0 && s[0] == '-' {
        s.skip(1)
    } else {
        s
    };
    assert(body =~= s.subrange(start, s.len() as int));
    assert(body[fd - start] == '.');
    assert(body.contains('.'));
    let d = body.index_of('.');
    assert(0 <= d < body.len() && body[d] == '.');
    if d < fd - start {
        assert(s[start + d] == '.');
        assert(false);
    }
    if d > fd - start {
        assert(body.take(d)[fd - start] == '.');
        assert(is_digit(body.take(d)[fd - start]));
        assert(false);
    }
    assert(body.take(d) =~= s.subrange(start, fd));
    assert(body.skip(d + 1) =~= s.subrange(fd + 1, s.len() as int));
}

proof fn lemma_dot_valid(s: Seq<char>, start: int, fd: int)
    requires
        start == (if s.len() > 0 && s[0] == '-' {
            1int
        } else {
            0int
        }),
        start <= fd < s.len(),
        s[fd] == '.',
        forall|k: int| start <= k < fd ==> s[k] != '.',
        fd - start >= 1,
        fd < s.len() - 1,
        all_digits(s.subrange(start, fd)),
        all_digits(s.subrange(fd + 1, s.len() as int)),
    ensures
        spec_fixed_text_valid(s),
        ({
            let body = if s.len() > 0 && s[0] == '-' {
                s.skip(1)
            } else {
                s
            };
            body.index_of('.') == fd - start
        }),
{
    let body = if s.len() > 0 && s[0] == '-' {
        s.skip(1)
    } else {
        s
    };
    assert(body =~= s.subrange(start, s.len() as int));
    assert(body[fd - start] == '.');
    assert(body.contains('.'));
    let d = body.index_of('.');
    assert(0 <= d < body.len() && body[d] == '.');
    if d < fd - start {
        assert(s[start + d] == '.');
        assert(false);
    }
    if d > fd - start {
        assert(s.subrange(fd + 1, s.len() as int)[start + d - (fd + 1)] == '.');
        assert(is_digit(s.subrange(fd + 1, s.len() as int)[start + d - (fd + 1)]));
        assert(false);
    }
    assert(body.take(d) =~= s.subrange(start, fd));
    assert(body.skip(d + 1) =~= s.subrange(fd + 1, s.len() as int));
}

/// Parses a plain decimal number out of a character sequence: an optional
/// minus sign, digits, and optionally a point followed by more digits.
#[verifier::rlimit(60)]
pub fn parse_fixed(v: &Vec<char>) -> (r: Option<Fixed>)
    ensures
        r == spec_parse_fixed(v@),
{
    let n = v.len();
    let neg = n > 0 && v[0] == '-';
    let start: usize = if neg {
        1
    } else {
        0
    };
    let ghost body = if neg {
        v@.skip(1)
    } else {
        v@
    };
    proof {
        assert(body =~= v@.subrange(start as int, n as int));
    }
    match find_char_from(v, start, '.') {
        None => {
            proof {
                if body.contains('.') {
                    let j = choose|j: int| 0 <= j < body.len() && body[j] == '.';
                    assert(v@[start + j] == '.');
                }
                assert(!body.contains('.'));
            }
            if start == n {
                assert(!spec_fixed_text_valid(v@));
                return None;
            }
            if !check_all_digits(v, start, n) {
                assert(!spec_fixed_text_valid(v@));
                return None;
            }
            assert(spec_fixed_text_valid(v@));
            let ghost val = spec_digits_val(body);
            match int_part_micros(v, start, n) {
                Some(mm) => {
                    proof {
                        assert(spec_fixed_text_micros(v@) == if neg {
                            -(mm as int)
                        } else {
                            mm as int
                        });
                    }
                    Some(Fixed { micros: clamp_signed(neg, mm) })
                },
                None => {
                    proof {
                        lemma_overflow_clamps(val, 0, neg);
                    }
                    Some(Fixed { micros: 0 })
                },
            }
        },
        Some(fd) => {
            proof {
                assert(body[fd - start] == '.');
            }
            if fd == start || fd + 1 >= n {
                proof {
                    if spec_fixed_text_valid(v@) {
                        lemma_dot_shape(v@, start as int, fd as int);
                    }
                }
                return None;
            }
            if !check_all_digits(v, start, fd) {
                proof {
                    if spec_fixed_text_valid(v@) {
                        lemma_dot_shape(v@, start as int, fd as int);
                        assert(body.take(fd - start) =~= v@.subrange(start as int, fd as int));
                    }
                }
                return None;
            }
            if !check_all_digits(v, fd + 1, n) {
                proof {
                    if spec_fixed_text_valid(v@) {
                        lemma_dot_shape(v@, start as int, fd as int);
                    }
                }
                return None;
            }
            proof {
                lemma_dot_valid(v@, start as int, fd as int);
            }
            let flen = n - (fd + 1);
            let m: usize = if flen >= 6 {
                6
            } else {
                flen
            };
            proof {
                assert forall|k: int|
                    0 <= k < m implies is_digit(
                    #[trigger] v@.subrange(fd + 1, fd + 1 + m)[k],
                ) by {
                    assert(v@.subrange(fd + 1, fd + 1 + m)[k] == v@.subrange(fd + 1, n as int)[k]);
                }
            }
            let facc = digits_u64(v, fd + 1, fd + 1 + m);
            let pw = pow10_u64(6 - m);
            proof {
                lemma_pow10_add(m as nat, (6 - m) as nat);
                lemma_pow10_mono(0, (6 - m) as nat);
                reveal_with_fuel(spec_pow10, 8);
                assert(facc * pw < 1_000_000) by (nonlinear_arith)
                    requires
                        facc < spec_pow10(m as nat),
                        pw == spec_pow10((6 - m) as nat),
                        spec_pow10(m as nat) * spec_pow10((6 - m) as nat) == spec_pow10(6),
                        spec_pow10(6) == 1_000_000,
                        pw >= 1,
                ;
            }
            let frac = facc * pw;
            let ghost fracs = body.skip(fd - start + 1);
            proof {
                assert(fracs =~= v@.subrange(fd + 1, n as int));
                if fracs.len() >= 6 {
                    assert(fracs.take(6) =~= v@.subrange(fd + 1, fd + 1 + m));
                    assert(frac == spec_frac_micros(fracs)) by (nonlinear_arith)
                        requires
                            frac == facc * pw,
                            pw == 1,
                            facc == spec_frac_micros(fracs),
                    ;
                } else {
                    assert(fracs =~= v@.subrange(fd + 1, fd + 1 + m));
                }
            }
            let ghost ival = spec_digits_val(body.take(fd - start));
            proof {
                assert(body.take(fd - start) =~= v@.subrange(start as int, fd as int));
            }
            match int_part_micros(v, start, fd) {
                Some(mm) => {
                    let mag = mm + frac;
                    proof {
                        assert(spec_fixed_text_micros(v@) == if neg {
                            -(mag as int)
                        } else {
                            mag as int
                        });
                    }
                    Some(Fixed { micros: clamp_signed(neg, mag) })
                },
                None => {
                    proof {
                        lemma_overflow_clamps(ival, spec_frac_micros(fracs) as int, neg);
                    }
                    Some(Fixed { micros: 0 })
                },
            }
        },
    }
}

proof fn lemma_overflow_clamps(val: nat, frac: int, neg: bool)
    requires
        val >= 10_000_000_000_000,
        0 <= frac,
    ensures
        spec_clamp_micros(
            if neg {
                -(val * 1_000_000 + frac)
            } else {
                val * 1_000_000 + frac
            },
        ) == 0,
{
    assert(val * 1_000_000 >= 10_000_000_000_000_000_000) by (nonlinear_arith)
        requires
            val >= 10_000_000_000_000,
    ;
}

} // verus!


