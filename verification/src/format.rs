//! The quantity formatter: converts between human-abbreviated counts
//! such as `"1.2K"` or `"3 M"` and plain integers, in both directions.
//!
//! `parse` strips thousands separators, recognizes a trailing unit suffix
//! (`K`/`k`, `M`, `B`), and reads the rest as a decimal number which is
//! scaled and truncated to an integer. `format` renders a count with the
//! largest fitting unit and two fixed decimal places. The two are not
//! exact inverses; `lemma_parse_format_round_trip` states precisely how
//! close the round trip is.

use vstd::prelude::*;
use crate::text::{
    all_digits, char_digit, dec_digits_of, digit_char, digit_val, digits_val, first_nonspace,
    is_digit, is_space, is_space_exec, last_nonspace_end, lemma_dec_digits_of_props,
    lemma_first_nonspace, lemma_last_nonspace_end, pow10, trim_spec, u64_to_string,
};
use crate::youtube::YoutubeError;

verus! {

/// The character inspected for a unit suffix: the last one, or a blank
/// when the text is empty.
pub open spec fn suffix_of(s: Seq<char>) -> char {
    if s.len() > 0 {
        s.last()
    } else {
        ' '
    }
}

/// The power of ten a unit suffix stands for: `K`/`k` scale by a
/// thousand, `M` by a million, `B` by a billion.
pub open spec fn exp_of_suffix(c: char) -> nat {
    if c == 'K' || c == 'k' {
        3
    } else if c == 'M' {
        6
    } else if c == 'B' {
        9
    } else {
        0
    }
}

/// `s` with every comma removed, and, when `strip_sfx` holds, every
/// occurrence of the suffix character as well.
pub open spec fn strip_rec(s: Seq<char>, sfx: char, strip_sfx: bool) -> Seq<char>
    decreases s.len(),
{
    if s.len() == 0 {
        s
    } else {
        let rest = strip_rec(s.drop_last(), sfx, strip_sfx);
        if s.last() == ',' || (strip_sfx && s.last() == sfx) {
            rest
        } else {
            rest.push(s.last())
        }
    }
}

/// The text that is finally read as a decimal number: separators and the
/// recognized suffix stripped, whitespace trimmed from both ends.
pub open spec fn cleaned(s: Seq<char>) -> Seq<char> {
    trim_spec(strip_rec(s, suffix_of(s), exp_of_suffix(suffix_of(s)) > 0))
}

/// Index of the first `'.'` in `s`, or `-1` if there is none.
pub open spec fn first_dot(s: Seq<char>) -> int
    decreases s.len(),
{
    if s.len() == 0 {
        -1
    } else if s[0] == '.' {
        0
    } else {
        let r = first_dot(s.drop_first());
        if r < 0 {
            -1
        } else {
            r + 1
        }
    }
}

/// A decimal number: digits with at most one point and at least one
/// digit, no sign and no exponent.
pub open spec fn valid_number(t: Seq<char>) -> bool {
    if first_dot(t) == -1 {
        t.len() > 0 && all_digits(t)
    } else {
        let i = first_dot(t);
        all_digits(t.take(i)) && all_digits(t.skip(i + 1)) && t.len() > 1
    }
}

/// The value of the decimal number `t` multiplied by `10^e` and
/// truncated to an integer: the integer part scaled in full, and of the
/// fractional digits only the first `e`, since the rest scale to less
/// than one.
pub open spec fn number_scaled(t: Seq<char>, e: nat) -> nat {
    if first_dot(t) == -1 {
        digits_val(t) * pow10(e)
    } else {
        let i = first_dot(t);
        let fp = t.skip(i + 1);
        let k = if fp.len() < e {
            fp.len()
        } else {
            e
        };
        digits_val(t.take(i)) * pow10(e) + digits_val(fp.take(k as int)) * pow10((e - k) as nat)
    }
}

/// What `parse` returns: the scaled value saturated at `u64::MAX`, or
/// nothing when the cleaned text is not a decimal number.
pub open spec fn parse_spec(s: Seq<char>) -> Option<u64> {
    let t = cleaned(s);
    let e = exp_of_suffix(suffix_of(s));
    if valid_number(t) {
        let v = number_scaled(t, e);
        if v > u64::MAX {
            Some(u64::MAX)
        } else {
            Some(v as u64)
        }
    } else {
        None
    }
}

/// The abbreviated rendering `"<whole>.<two digits> <suffix>"` used for
/// counts of at least a thousand.
pub open spec fn abbrev_spec(n: u64, unit: u64, sfx: char) -> Seq<char> {
    dec_digits_of((n / unit) as nat) + seq!['.'] + seq![
        digit_char((((n % unit) / (unit / 100)) / 10) as nat),
        digit_char((((n % unit) / (unit / 100)) % 10) as nat),
    ] + seq![' ', sfx]
}

/// What `format` returns: two-decimal fixed point under the largest
/// fitting unit, or the plain decimal text below a thousand.
pub open spec fn format_spec(n: u64) -> Seq<char> {
    if n >= 1000000000 {
        abbrev_spec(n, 1000000000, 'B')
    } else if n >= 1000000 {
        abbrev_spec(n, 1000000, 'M')
    } else if n >= 1000 {
        abbrev_spec(n, 1000, 'K')
    } else {
        dec_digits_of(n as nat)
    }
}

fn format_with_unit(n: u64, unit: u64, sfx: &str, sfx_c: char) -> (r: String)
    requires
        unit == 1000 || unit == 1000000 || unit == 1000000000,
        n >= unit,
        sfx@ =~= seq![sfx_c],
    ensures
        r@ == abbrev_spec(n, unit, sfx_c),
{
    proof {
        reveal_strlit(".");
        reveal_strlit(" ");
    }
    let whole = n / unit;
    let hundredths = (n % unit) / (unit / 100);
    proof {
        if unit == 1000 {
            assert(hundredths == (n % 1000) / 10 && n % 1000 < 1000);
        } else if unit == 1000000 {
            assert(hundredths == (n % 1000000) / 10000 && n % 1000000 < 1000000);
        } else {
            assert(hundredths == (n % 1000000000) / 10000000 && n % 1000000000 < 1000000000);
        }
        assert(hundredths < 100);
    }
    let mut s = u64_to_string(whole);
    s.append(".");
    s.append(crate::text::digit_str(hundredths / 10));
    s.append(crate::text::digit_str(hundredths % 10));
    s.append(" ");
    s.append(sfx);
    proof {
        assert(s@ =~= abbrev_spec(n, unit, sfx_c));
    }
    s
}

/// Renders a count the way result lines show it: `"X.XX B"` from a
/// billion up, `"X.XX M"` from a million, `"X.XX K"` from a thousand,
/// plain digits below.
pub fn format(n: u64) -> (r: String)
    ensures
        r@ == format_spec(n),
{
    if n >= 1000000000 {
        proof {
            reveal_strlit("B");
        }
        format_with_unit(n, 1000000000, "B", 'B')
    } else if n >= 1000000 {
        proof {
            reveal_strlit("M");
        }
        format_with_unit(n, 1000000, "M", 'M')
    } else if n >= 1000 {
        proof {
            reveal_strlit("K");
        }
        format_with_unit(n, 1000, "K", 'K')
    } else {
        u64_to_string(n)
    }
}

pub proof fn lemma_pow10_pos(e: nat)
    ensures
        pow10(e) >= 1,
    decreases e,
{
    if e > 0 {
        lemma_pow10_pos((e - 1) as nat);
    }
}

pub proof fn lemma_pow10_le(a: nat, b: nat)
    requires
        a <= b,
    ensures
        pow10(a) <= pow10(b),
    decreases b,
{
    if a < b {
        lemma_pow10_le(a, (b - 1) as nat);
        lemma_pow10_pos((b - 1) as nat);
    }
}

pub proof fn lemma_pow10_adds(a: nat, b: nat)
    ensures
        pow10(a + b) == pow10(a) * pow10(b),
    decreases a,
{
    if a == 0 {
    } else {
        lemma_pow10_adds((a - 1) as nat, b);
        assert((a + b) as nat == ((a - 1) as nat + b) + 1);
        vstd::arithmetic::mul::lemma_mul_is_associative(10, pow10((a - 1) as nat) as int, pow10(b) as int);
    }
}

pub proof fn lemma_first_dot_props(s: Seq<char>)
    ensures
        first_dot(s) >= -1,
        first_dot(s) == -1 ==> (forall|j: int| 0 <= j < s.len() ==> (#[trigger] s[j]) != '.'),
        first_dot(s) >= 0 ==> first_dot(s) < s.len() && s[first_dot(s)] == '.' && (forall|j: int|
            0 <= j < first_dot(s) ==> (#[trigger] s[j]) != '.'),
    decreases s.len(),
{
    if s.len() == 0 {
    } else if s[0] == '.' {
    } else {
        lemma_first_dot_props(s.drop_first());
        let r = first_dot(s.drop_first());
        if r == -1 {
            assert forall|j: int| 0 <= j < s.len() implies (#[trigger] s[j]) != '.' by {
                if j > 0 {
                    assert(s.drop_first()[j - 1] != '.');
                    assert(s.drop_first()[j - 1] == s[j]);
                }
            }
        } else {
            assert(s[r + 1] == s.drop_first()[r]);
            assert forall|j: int| 0 <= j < first_dot(s) implies (#[trigger] s[j]) != '.' by {
                if j > 0 {
                    assert(s.drop_first()[j - 1] != '.');
                    assert(s.drop_first()[j - 1] == s[j]);
                }
            }
        }
    }
}

pub proof fn lemma_strip_rec_distributes(a: Seq<char>, b: Seq<char>, sfx: char, ss: bool)
    ensures
        strip_rec(a + b, sfx, ss) == strip_rec(a, sfx, ss) + strip_rec(b, sfx, ss),
    decreases b.len(),
{
    if b.len() == 0 {
        assert(a + b =~= a);
        assert(strip_rec(b, sfx, ss) =~= Seq::<char>::empty());
        assert(strip_rec(a, sfx, ss) + Seq::<char>::empty() =~= strip_rec(a, sfx, ss));
    } else {
        lemma_strip_rec_distributes(a, b.drop_last(), sfx, ss);
        assert((a + b).drop_last() =~= a + b.drop_last());
        assert((a + b).last() == b.last());
        if b.last() == ',' || (ss && b.last() == sfx) {
        } else {
            assert((strip_rec(a, sfx, ss) + strip_rec(b.drop_last(), sfx, ss)).push(b.last())
                =~= strip_rec(a, sfx, ss) + strip_rec(b.drop_last(), sfx, ss).push(b.last()));
        }
    }
}

pub proof fn lemma_strip_rec_all_kept(s: Seq<char>, sfx: char, ss: bool)
    requires
        forall|i: int| 0 <= i < s.len() ==> !((#[trigger] s[i]) == ',' || (ss && s[i] == sfx)),
    ensures
        strip_rec(s, sfx, ss) == s,
    decreases s.len(),
{
    if s.len() == 0 {
    } else {
        assert(forall|i: int|
            0 <= i < s.len() - 1 ==> !((#[trigger] s.drop_last()[i]) == ',' || (ss
                && s.drop_last()[i] == sfx)));
        lemma_strip_rec_all_kept(s.drop_last(), sfx, ss);
        assert(!(s.last() == ',' || (ss && s.last() == sfx)));
        assert(s.drop_last().push(s.last()) =~= s);
    }
}

/// Ten to a small power, as an executable value.
pub fn pow10_exec(e: u32) -> (r: u64)
    requires
        e <= 9,
    ensures
        r == pow10(e as nat),
{
    proof {
        reveal_with_fuel(pow10, 11);
    }
    match e {
        0 => 1,
        1 => 10,
        2 => 100,
        3 => 1000,
        4 => 10000,
        5 => 100000,
        6 => 1000000,
        7 => 10000000,
        8 => 100000000,
        _ => 1000000000,
    }
}

fn parse_failure() -> (r: YoutubeError)
    ensures
        r is ParseError,
{
    YoutubeError::ParseError(String::from_str("invalid number"))
}

/// Reads a human-abbreviated count: thousands separators are dropped, a
/// trailing `K`/`k`, `M` or `B` scales the remaining decimal number,
/// and the result is truncated to an integer, saturating at `u64::MAX`.
/// Anything that does not clean up to a decimal number is a
/// `ParseError`.
#[verifier::rlimit(50)]
pub fn parse(from: &str) -> (r: Result<u64, YoutubeError>)
    ensures
        (r is Ok) == (parse_spec(from@) is Some),
        r is Ok ==> r->Ok_0 == parse_spec(from@)->0,
        r is Err ==> r->Err_0 is ParseError,
{
    let len = from.unicode_len();
    let sfx: char = if len > 0 {
        from.get_char(len - 1)
    } else {
        ' '
    };
    proof {
        assert(sfx == suffix_of(from@));
    }
    let e: u32 = if sfx == 'K' || sfx == 'k' {
        3
    } else if sfx == 'M' {
        6
    } else if sfx == 'B' {
        9
    } else {
        0
    };
    proof {
        assert(e as nat == exp_of_suffix(sfx));
    }
    let ss = e > 0;

    let mut v: Vec<char> = Vec::new();
    let mut i: usize = 0;
    while i < len
        invariant
            len == from@.len(),
            0 <= i <= len,
            ss == (exp_of_suffix(sfx) > 0),
            v@ == strip_rec(from@.take(i as int), sfx, ss),
        decreases len - i,
    {
        let c = from.get_char(i);
        proof {
            assert(from@.take(i + 1).drop_last() =~= from@.take(i as int));
            assert(from@.take(i + 1).last() == from@[i as int]);
        }
        if !(c == ',' || (ss && c == sfx)) {
            v.push(c);
        }
        i += 1;
    }
    proof {
        assert(from@.take(len as int) =~= from@);
    }

    let n = v.len();
    let mut a: usize = 0;
    while a < n && is_space_exec(v[a])
        invariant
            n == v@.len(),
            0 <= a <= n,
            forall|j: int| 0 <= j < a ==> is_space(#[trigger] v@[j]),
        decreases n - a,
    {
        a += 1;
    }
    proof {
        lemma_first_nonspace(v@);
        assert(first_nonspace(v@) == a) by {
            if first_nonspace(v@) < a {
                assert(is_space(v@[first_nonspace(v@)]));
            }
            if a < first_nonspace(v@) {
                assert(is_space(v@[a as int]));
            }
        }
    }
    if a == n {
        proof {
            assert(cleaned(from@) =~= Seq::<char>::empty());
            assert(!valid_number(cleaned(from@)));
        }
        return Err(parse_failure());
    }
    let mut b: usize = n;
    while b > a && is_space_exec(v[b - 1])
        invariant
            n == v@.len(),
            a <= b <= n,
            forall|j: int| b <= j < n ==> is_space(#[trigger] v@[j]),
            a < n && !is_space(v@[a as int]),
        decreases b,
    {
        b -= 1;
    }
    proof {
        lemma_last_nonspace_end(v@);
        assert(last_nonspace_end(v@) == b) by {
            if last_nonspace_end(v@) < b {
                assert(!is_space(v@[b - 1]));
                assert(b - 1 >= last_nonspace_end(v@));
            }
            if b < last_nonspace_end(v@) {
                assert(is_space(v@[last_nonspace_end(v@) - 1]));
            }
        }
    }
    let ghost t = v@.subrange(a as int, b as int);
    proof {
        assert(t == cleaned(from@));
    }

    let mut j: usize = a;
    let mut dot: Option<usize> = None;
    let mut acc: u128 = 0;
    let mut facc: u64 = 0;
    let mut fcnt: usize = 0;
    while j < b
        invariant
            a <= j <= b <= v@.len(),
            t == v@.subrange(a as int, b as int),
            t == cleaned(from@),
            e <= 9,
            e as nat == exp_of_suffix(suffix_of(from@)),
            dot is None ==> {
                &&& fcnt == 0
                &&& facc == 0
                &&& all_digits(t.take(j - a))
                &&& (digits_val(t.take(j - a)) > u64::MAX ==> acc == u64::MAX as int + 1)
                &&& (digits_val(t.take(j - a)) <= u64::MAX ==> acc == digits_val(t.take(j - a)))
            },
            dot matches Some(p) ==> {
                &&& a <= p < j
                &&& t[p - a] == '.'
                &&& all_digits(t.take(p - a))
                &&& (digits_val(t.take(p - a)) > u64::MAX ==> acc == u64::MAX as int + 1)
                &&& (digits_val(t.take(p - a)) <= u64::MAX ==> acc == digits_val(t.take(p - a)))
                &&& all_digits(t.subrange(p - a + 1, j - a))
                &&& fcnt == (if j - p - 1 <= e {
                    (j - p - 1) as usize
                } else {
                    e as usize
                })
                &&& facc == digits_val(t.subrange(p - a + 1, p - a + 1 + fcnt))
                &&& facc < pow10(fcnt as nat)
            },
        decreases b - j,
    {
        let c = v[j];
        proof {
            assert(t[j - a] == v@[j as int]);
        }
        if let Some(d) = char_digit(c) {
            proof {
                assert(is_digit(c) && digit_val(c) == d as nat);
            }
            match dot {
                None => {
                    let prev = acc;
                    acc = prev * 10 + d as u128;
                    if acc > u64::MAX as u128 {
                        acc = u64::MAX as u128 + 1;
                    }
                    proof {
                        assert(t.take(j - a + 1).drop_last() =~= t.take(j - a));
                        assert(t.take(j - a + 1).last() == t[j - a]);
                        let ov = digits_val(t.take(j - a));
                        let nv = digits_val(t.take(j - a + 1));
                        assert(nv == ov * 10 + d);
                        if ov > u64::MAX as nat {
                            assert(nv >= ov) by (nonlinear_arith)
                                requires
                                    nv == ov * 10 + d,
                                    ov >= 0,
                                    d >= 0,
                            ;
                        }
                    }
                },
                Some(p) => {
                    proof {
                        assert(t.subrange(p - a + 1, j - a + 1).drop_last() =~= t.subrange(
                            p - a + 1,
                            j - a,
                        ));
                        assert(t.subrange(p - a + 1, j - a + 1).last() == t[j - a]);
                    }
                    if fcnt < e as usize {
                        proof {
                            assert(fcnt == j - p - 1);
                            lemma_pow10_le(fcnt as nat, 8);
                            reveal_with_fuel(pow10, 11);
                            assert(pow10(8) == 100000000);
                            assert(facc < 100000000);
                            assert(t.subrange(p - a + 1, p - a + 1 + (fcnt + 1)).drop_last()
                                =~= t.subrange(p - a + 1, p - a + 1 + fcnt));
                            assert(t.subrange(p - a + 1, p - a + 1 + (fcnt + 1)).last() == t[j
                                - a]);
                        }
                        facc = facc * 10 + d;
                        fcnt = fcnt + 1;
                        proof {
                            assert(pow10(fcnt as nat) == 10 * pow10((fcnt - 1) as nat));
                        }
                    } else {
                        proof {
                            assert(fcnt == e as usize);
                            assert(t.subrange(p - a + 1, p - a + 1 + fcnt) =~= t.subrange(
                                p - a + 1,
                                j - a + 1,
                            ).take(fcnt as int));
                            assert(t.subrange(p - a + 1, p - a + 1 + fcnt) == t.subrange(
                                p - a + 1,
                                j - a,
                            ).take(fcnt as int));
                        }
                    }
                },
            }
        } else if c == '.' {
            match dot {
                None => {
                    dot = Some(j);
                    proof {
                        assert(t.subrange(j - a + 1, j - a + 1) =~= Seq::<char>::empty());
                        assert(digits_val(Seq::<char>::empty()) == 0);
                        assert(t.subrange(j - a + 1, j - a + 1 + 0) =~= Seq::<char>::empty());
                        assert(pow10(0) == 1);
                    }
                },
                Some(p) => {
                    proof {
                        lemma_first_dot_props(t);
                        let fd = first_dot(t);
                        assert(t[p - a] == '.');
                        assert(fd != -1);
                        assert(fd == p - a) by {
                            if fd < p - a {
                                assert(t.take(p - a)[fd] == t[fd]);
                                assert(is_digit(t[fd]));
                                assert(t[fd] == '.');
                                assert(('.' as int) == 46);
                            }
                            if fd > p - a {
                                assert(t[p - a] != '.');
                            }
                        }
                        assert(t.skip(fd + 1)[j - a - fd - 1] == t[j - a]);
                        assert(!is_digit('.'));
                        assert(!all_digits(t.skip(fd + 1)));
                        assert(!valid_number(t));
                    }
                    return Err(parse_failure());
                },
            }
        } else {
            proof {
                assert(!is_digit(t[j - a]) && t[j - a] != '.');
                lemma_first_dot_props(t);
                let fd = first_dot(t);
                if fd == -1 {
                    assert(!all_digits(t));
                } else {
                    assert(t[fd] == '.');
                    assert(j - a != fd);
                    if j - a < fd {
                        assert(t.take(fd)[j - a] == t[j - a]);
                        assert(!all_digits(t.take(fd)));
                    } else {
                        assert(t.skip(fd + 1)[j - a - fd - 1] == t[j - a]);
                        assert(!all_digits(t.skip(fd + 1)));
                    }
                }
                assert(!valid_number(t));
            }
            return Err(parse_failure());
        }
        j += 1;
    }

    match dot {
        None => {
            proof {
                assert(t.take(b - a) =~= t);
            }
            if b == a {
                proof {
                    assert(t.len() == 0);
                    assert(!valid_number(t));
                }
                return Err(parse_failure());
            }
            proof {
                lemma_first_dot_props(t);
                if first_dot(t) >= 0 {
                    assert(is_digit(t[first_dot(t)]));
                    assert(t[first_dot(t)] == '.');
                    assert(('.' as int) == 46);
                }
                assert(first_dot(t) == -1);
                assert(valid_number(t));
            }
            if acc > u64::MAX as u128 {
                proof {
                    let dv = digits_val(t);
                    lemma_pow10_pos(e as nat);
                    assert(dv * pow10(e as nat) >= dv) by (nonlinear_arith)
                        requires
                            pow10(e as nat) >= 1,
                            dv >= 0,
                    ;
                    assert(number_scaled(t, e as nat) > u64::MAX);
                }
                return Ok(u64::MAX);
            }
            let m = pow10_exec(e);
            proof {
                assert(acc <= u64::MAX as u128);
                lemma_pow10_pos(e as nat);
                assert(m <= 1000000000) by {
                    reveal_with_fuel(pow10, 11);
                    lemma_pow10_le(e as nat, 9);
                }
                assert(acc * (m as u128) <= (u64::MAX as u128) * 1000000000) by (nonlinear_arith)
                    requires
                        acc <= u64::MAX as u128,
                        m <= 1000000000,
                        acc >= 0,
                        m >= 1,
                ;
            }
            let total = acc * (m as u128);
            proof {
                assert(total == number_scaled(t, e as nat));
            }
            if total > u64::MAX as u128 {
                Ok(u64::MAX)
            } else {
                Ok(total as u64)
            }
        },
        Some(p) => {
            proof {
                lemma_first_dot_props(t);
                let fd = first_dot(t);
                assert(fd != -1);
                assert(fd == p - a) by {
                    if fd < p - a {
                        assert(t.take(p - a)[fd] == t[fd]);
                        assert(is_digit(t[fd]));
                        assert(t[fd] == '.');
                        assert(('.' as int) == 46);
                    }
                    if fd > p - a {
                        assert(t[p - a] != '.');
                    }
                }
                assert(t.subrange(p - a + 1, b - a) =~= t.skip(p - a + 1));
            }
            if b - a < 2 {
                proof {
                    assert(t.len() == 1);
                    assert(!valid_number(t));
                }
                return Err(parse_failure());
            }
            proof {
                assert(valid_number(t));
            }
            let rem = b - p - 1;
            proof {
                assert(t.skip(p - a + 1).len() == rem);
                assert(fcnt == (if rem <= e as usize {
                    rem
                } else {
                    e as usize
                }));
                assert(t.subrange(p - a + 1, p - a + 1 + fcnt) =~= t.skip(p - a + 1).take(
                    fcnt as int,
                ));
            }
            let pw = pow10_exec(e - fcnt as u32);
            let ghost fpv = digits_val(t.skip(p - a + 1).take(fcnt as int));
            proof {
                lemma_pow10_adds(fcnt as nat, (e - fcnt) as nat);
                lemma_pow10_pos((e - fcnt) as nat);
                lemma_pow10_pos(e as nat);
                assert(facc * pw < pow10(e as nat)) by (nonlinear_arith)
                    requires
                        facc < pow10(fcnt as nat),
                        pw == pow10((e as nat - fcnt as nat) as nat),
                        pow10(fcnt as nat) * pow10((e as nat - fcnt as nat) as nat) == pow10(
                            e as nat,
                        ),
                        pw >= 1,
                        pow10(e as nat) >= 1,
                ;
                reveal_with_fuel(pow10, 11);
                lemma_pow10_le(e as nat, 9);
                assert(pow10(9) == 1000000000);
                assert(facc * pw <= 1000000000);
            }
            let fcontrib: u64 = facc * pw;
            if acc > u64::MAX as u128 {
                proof {
                    let dv = digits_val(t.take(p - a));
                    lemma_pow10_pos(e as nat);
                    assert(dv * pow10(e as nat) >= dv) by (nonlinear_arith)
                        requires
                            pow10(e as nat) >= 1,
                            dv >= 0,
                    ;
                    assert(number_scaled(t, e as nat) >= dv);
                    assert(number_scaled(t, e as nat) > u64::MAX);
                }
                return Ok(u64::MAX);
            }
            let m = pow10_exec(e);
            proof {
                lemma_pow10_pos(e as nat);
                assert(m <= 1000000000) by {
                    reveal_with_fuel(pow10, 11);
                    lemma_pow10_le(e as nat, 9);
                }
                assert(acc * (m as u128) <= (u64::MAX as u128) * 1000000000) by (nonlinear_arith)
                    requires
                        acc <= u64::MAX as u128,
                        m <= 1000000000,
                        acc >= 0,
                        m >= 1,
                ;
            }
            let total = acc * (m as u128) + fcontrib as u128;
            proof {
                assert(total == number_scaled(t, e as nat));
            }
            if total > u64::MAX as u128 {
                Ok(u64::MAX)
            } else {
                Ok(total as u64)
            }
        },
    }
}


/// The precision the two-decimal rendering keeps: parsing a formatted
/// count loses at most this much.
pub open spec fn round_unit(n: u64) -> u64 {
    if n >= 1000000000 {
        10000000
    } else if n >= 1000000 {
        10000
    } else if n >= 1000 {
        10
    } else {
        1
    }
}

#[verifier::rlimit(100)]
proof fn lemma_parse_abbrev(n: u64, unit: u64, sfx: char, e: nat)
    requires
        (unit == 1000 && sfx == 'K' && e == 3) || (unit == 1000000 && sfx == 'M' && e == 6) || (
        unit == 1000000000 && sfx == 'B' && e == 9),
        n >= unit,
    ensures
        parse_spec(abbrev_spec(n, unit, sfx)) == Some((n - n % (unit / 100)) as u64),
{
    let s = abbrev_spec(n, unit, sfx);
    let a_val = (n / unit) as nat;
    let h = ((n % unit) / (unit / 100)) as nat;
    if unit == 1000 {
        assert(unit / 100 == 10);
        assert(h == ((n % 1000) as int / 10) as nat);
        assert(n % 1000 < 1000);
        assert(h < 100);
    } else if unit == 1000000 {
        assert(unit / 100 == 10000);
        assert(h == ((n % 1000000) as int / 10000) as nat);
        assert(n % 1000000 < 1000000);
        assert(h < 100);
    } else {
        assert(unit / 100 == 10000000);
        assert(h == ((n % 1000000000) as int / 10000000) as nat);
        assert(n % 1000000000 < 1000000000);
        assert(h < 100);
    }
    let dd = dec_digits_of(a_val);
    let c1 = digit_char(h / 10);
    let c2 = digit_char(h % 10);
    lemma_dec_digits_of_props(a_val);
    let core = dd + seq!['.'] + seq![c1, c2];
    assert(s =~= core + seq![' ', sfx]);
    let l = dd.len() as int;
    assert(s.len() == l + 5);
    assert(s.last() == sfx);
    assert(suffix_of(s) == sfx);
    assert(exp_of_suffix(sfx) == e);

    lemma_strip_rec_distributes(core, seq![' ', sfx], sfx, true);
    lemma_strip_rec_distributes(dd + seq!['.'], seq![c1, c2], sfx, true);
    lemma_strip_rec_distributes(dd, seq!['.'], sfx, true);
    assert(is_digit(dd[0]));
    lemma_strip_rec_all_kept(dd, sfx, true);
    assert(seq!['.'][0] == '.');
    lemma_strip_rec_all_kept(seq!['.'], sfx, true);
    assert(seq![c1, c2][0] == c1 && seq![c1, c2][1] == c2);
    assert(is_digit(c1) && is_digit(c2));
    lemma_strip_rec_all_kept(seq![c1, c2], sfx, true);
    let sp2 = seq![' ', sfx];
    assert(sp2.last() == sfx && sp2.drop_last() =~= seq![' ']);
    assert(strip_rec(sp2, sfx, true) == strip_rec(sp2.drop_last(), sfx, true));
    assert(seq![' '][0] == ' ');
    lemma_strip_rec_all_kept(seq![' '], sfx, true);
    assert(strip_rec(sp2, sfx, true) =~= seq![' ']);
    let st = strip_rec(s, sfx, true);
    assert(st == strip_rec(core, sfx, true) + strip_rec(seq![' ', sfx], sfx, true));
    assert(strip_rec(core, sfx, true) =~= core);
    assert(st =~= core + seq![' ']);

    assert(st[0] == dd[0]);
    assert(!is_space(dd[0]));
    assert(first_nonspace(st) == 0);
    assert(st.last() == ' ');
    assert(st.drop_last() =~= core);
    assert(core.last() == c2);
    assert(!is_space(c2));
    assert(last_nonspace_end(core) == core.len());
    assert(last_nonspace_end(st) == core.len());
    let t = cleaned(s);
    assert(t == trim_spec(st));
    assert(t =~= st.subrange(0, core.len() as int));
    assert(t =~= core);

    lemma_first_dot_props(t);
    let fd = first_dot(t);
    assert(t[l] == '.');
    assert(fd != -1);
    assert(fd == l) by {
        if fd < l {
            assert(t[fd] == dd[fd]);
            assert(is_digit(dd[fd]));
            assert(t[fd] == '.');
        }
        if fd > l {
            assert(t[l] != '.');
        }
    }
    assert(t.take(l) =~= dd);
    assert(t.skip(l + 1) =~= seq![c1, c2]);
    let fp = t.skip(l + 1);
    assert(fp.len() == 2);
    assert(all_digits(fp)) by {
        assert(fp[0] == c1 && fp[1] == c2);
    }
    assert(valid_number(t));

    assert(digits_val(dd) == a_val);
    assert(fp.take(2) =~= seq![c1, c2]);
    assert(seq![c1, c2].drop_last() =~= seq![c1]);
    assert(seq![c1, c2].last() == c2);
    assert(seq![c1].drop_last() =~= Seq::<char>::empty());
    assert(seq![c1].last() == c1);
    assert(digits_val(Seq::<char>::empty()) == 0);
    assert(digits_val(seq![c1]) == digit_val(c1));
    assert(digits_val(seq![c1, c2]) == digits_val(seq![c1]) * 10 + digit_val(c2));
    assert(h / 10 < 10 && h % 10 < 10);
    assert(digit_val(c1) == h / 10);
    assert(digit_val(c2) == h % 10);
    assert(digits_val(seq![c1, c2]) == h);
    let v = number_scaled(t, e);
    assert(v == a_val * pow10(e) + h * pow10((e - 2) as nat));
    reveal_with_fuel(pow10, 11);
    let ni = n as int;
    if unit == 1000 {
        assert(e == 3);
        assert(pow10(3) == 1000 && pow10(1) == 10);
        assert(v == a_val * 1000 + h * 10);
        vstd::arithmetic::div_mod::lemma_fundamental_div_mod(ni, 1000);
        assert(a_val * 1000 == ni - ni % 1000);
        vstd::arithmetic::div_mod::lemma_fundamental_div_mod(ni % 1000, 10);
        assert(h * 10 == ni % 1000 - (ni % 1000) % 10);
        vstd::arithmetic::div_mod::lemma_mod_mod(ni, 10, 100);
        assert(10 * 100 == 1000);
        assert((ni % 1000) % 10 == ni % 10);
        assert(v == ni - ni % 10);
    } else if unit == 1000000 {
        assert(e == 6);
        assert(pow10(6) == 1000000 && pow10(4) == 10000);
        assert(v == a_val * 1000000 + h * 10000);
        vstd::arithmetic::div_mod::lemma_fundamental_div_mod(ni, 1000000);
        assert(a_val * 1000000 == ni - ni % 1000000);
        vstd::arithmetic::div_mod::lemma_fundamental_div_mod(ni % 1000000, 10000);
        assert(h * 10000 == ni % 1000000 - (ni % 1000000) % 10000);
        vstd::arithmetic::div_mod::lemma_mod_mod(ni, 10000, 100);
        assert(10000 * 100 == 1000000);
        assert((ni % 1000000) % 10000 == ni % 10000);
        assert(v == ni - ni % 10000);
    } else {
        assert(e == 9);
        assert(pow10(9) == 1000000000 && pow10(7) == 10000000);
        assert(v == a_val * 1000000000 + h * 10000000);
        vstd::arithmetic::div_mod::lemma_fundamental_div_mod(ni, 1000000000);
        assert(a_val * 1000000000 == ni - ni % 1000000000);
        vstd::arithmetic::div_mod::lemma_fundamental_div_mod(ni % 1000000000, 10000000);
        assert(h * 10000000 == ni % 1000000000 - (ni % 1000000000) % 10000000);
        vstd::arithmetic::div_mod::lemma_mod_mod(ni, 10000000, 100);
        assert(10000000 * 100 == 1000000000);
        assert((ni % 1000000000) % 10000000 == ni % 10000000);
        assert(v == ni - ni % 10000000);
    }
    assert(v <= n);
    assert(parse_spec(s) == Some(v as u64));
}

/// The round trip through the formatter: parsing a formatted count
/// always succeeds and gives back the count rounded down to the
/// precision that the two-decimal rendering kept, so the loss is
/// always less than one unit of that precision.
pub proof fn lemma_parse_format_round_trip(n: u64)
    ensures
        parse_spec(format_spec(n)) is Some,
        parse_spec(format_spec(n))->0 == n - n % round_unit(n),
        parse_spec(format_spec(n))->0 <= n,
        n - parse_spec(format_spec(n))->0 < round_unit(n),
{
    if n >= 1000000000 {
        lemma_parse_abbrev(n, 1000000000, 'B', 9);
    } else if n >= 1000000 {
        lemma_parse_abbrev(n, 1000000, 'M', 6);
    } else if n >= 1000 {
        lemma_parse_abbrev(n, 1000, 'K', 3);
    } else {
        let s = format_spec(n);
        assert(s == dec_digits_of(n as nat));
        lemma_dec_digits_of_props(n as nat);
        let sfx = suffix_of(s);
        assert(sfx == s.last());
        assert(is_digit(sfx));
        assert(exp_of_suffix(sfx) == 0);
        lemma_strip_rec_all_kept(s, sfx, false);
        assert(!is_space(s[0]));
        assert(first_nonspace(s) == 0);
        assert(!is_space(s.last()));
        assert(last_nonspace_end(s) == s.len());
        let t = cleaned(s);
        assert(t =~= s.subrange(0, s.len() as int));
        assert(t =~= s);
        lemma_first_dot_props(t);
        if first_dot(t) >= 0 {
            assert(is_digit(t[first_dot(t)]));
            assert(t[first_dot(t)] == '.');
        }
        assert(first_dot(t) == -1);
        assert(valid_number(t));
        assert(pow10(0) == 1);
        assert(digits_val(t) == n);
        assert(number_scaled(t, 0) == n * 1);
        assert(round_unit(n) == 1);
    }
}

} // verus!
