//! Small verified utilities on characters, digit strings and `String`s that
//! the formatter, the extractor and the command dispatcher share.

use vstd::prelude::*;

verus! {

/// `String::push` appends one character; vstd does not specify it.
pub assume_specification[ String::push ](s: &mut String, c: char)
    ensures
        final(s)@ == old(s)@.push(c),
;

pub open spec fn is_digit(c: char) -> bool {
    c == '0' || c == '1' || c == '2' || c == '3' || c == '4' || c == '5' || c == '6' || c == '7'
        || c == '8' || c == '9'
}

pub open spec fn digit_val(c: char) -> nat {
    if c == '0' {
        0
    } else if c == '1' {
        1
    } else if c == '2' {
        2
    } else if c == '3' {
        3
    } else if c == '4' {
        4
    } else if c == '5' {
        5
    } else if c == '6' {
        6
    } else if c == '7' {
        7
    } else if c == '8' {
        8
    } else {
        9
    }
}

/// The numeric value of a decimal digit character, or nothing for any
/// other character.
pub fn char_digit(c: char) -> (r: Option<u64>)
    ensures
        (r is Some) == is_digit(c),
        r is Some ==> r->0 == digit_val(c),
{
    match c {
        '0' => Some(0),
        '1' => Some(1),
        '2' => Some(2),
        '3' => Some(3),
        '4' => Some(4),
        '5' => Some(5),
        '6' => Some(6),
        '7' => Some(7),
        '8' => Some(8),
        '9' => Some(9),
        _ => None,
    }
}

pub open spec fn digit_char(d: nat) -> char {
    if d == 0 {
        '0'
    } else if d == 1 {
        '1'
    } else if d == 2 {
        '2'
    } else if d == 3 {
        '3'
    } else if d == 4 {
        '4'
    } else if d == 5 {
        '5'
    } else if d == 6 {
        '6'
    } else if d == 7 {
        '7'
    } else if d == 8 {
        '8'
    } else {
        '9'
    }
}

pub open spec fn all_digits(s: Seq<char>) -> bool {
    forall|i: int| 0 <= i < s.len() ==> is_digit(#[trigger] s[i])
}

/// The value of a string of decimal digits, most significant first.
pub open spec fn digits_val(s: Seq<char>) -> nat
    decreases s.len(),
{
    if s.len() == 0 {
        0
    } else {
        digits_val(s.drop_last()) * 10 + digit_val(s.last())
    }
}

/// The decimal digit string of a number, without leading zeros
/// (a single `'0'` for zero).
pub open spec fn dec_digits_of(n: nat) -> Seq<char>
    decreases n,
{
    if n < 10 {
        seq![digit_char(n)]
    } else {
        dec_digits_of(n / 10).push(digit_char(n % 10))
    }
}

pub open spec fn pow10(e: nat) -> nat
    decreases e,
{
    if e == 0 {
        1
    } else {
        10 * pow10((e - 1) as nat)
    }
}

pub proof fn lemma_dec_digits_of_props(n: nat)
    ensures
        dec_digits_of(n).len() >= 1,
        all_digits(dec_digits_of(n)),
        digits_val(dec_digits_of(n)) == n,
    decreases n,
{
    if n < 10 {
        let s = dec_digits_of(n);
        assert(s =~= seq![digit_char(n)]);
        assert(is_digit(digit_char(n)));
        assert(s.drop_last() =~= Seq::<char>::empty());
        assert(digits_val(s.drop_last()) == 0);
        assert(s.last() == digit_char(n));
        assert(digit_val(digit_char(n)) == n);
        assert(digits_val(s) == digits_val(s.drop_last()) * 10 + digit_val(s.last()));
    } else {
        lemma_dec_digits_of_props(n / 10);
        let prefix = dec_digits_of(n / 10);
        let whole = prefix.push(digit_char(n % 10));
        assert(whole.drop_last() =~= prefix);
        assert(is_digit(digit_char(n % 10)));
        assert(digit_val(digit_char(n % 10)) == n % 10);
        assert(forall|i: int|
            0 <= i < whole.len() ==> is_digit(#[trigger] whole[i]));
        assert(digits_val(whole) == (n / 10) * 10 + n % 10);
    }
}

/// The one-character string of a decimal digit.
pub fn digit_str(d: u64) -> (r: &'static str)
    requires
        d < 10,
    ensures
        r@ =~= seq![digit_char(d as nat)],
{
    proof {
        reveal_strlit("0");
        reveal_strlit("1");
        reveal_strlit("2");
        reveal_strlit("3");
        reveal_strlit("4");
        reveal_strlit("5");
        reveal_strlit("6");
        reveal_strlit("7");
        reveal_strlit("8");
        reveal_strlit("9");
    }
    match d {
        0 => "0",
        1 => "1",
        2 => "2",
        3 => "3",
        4 => "4",
        5 => "5",
        6 => "6",
        7 => "7",
        8 => "8",
        _ => "9",
    }
}

/// The decimal rendering of `n`, e.g. `1230` to `"1230"`.
pub fn u64_to_string(n: u64) -> (r: String)
    ensures
        r@ == dec_digits_of(n as nat),
    decreases n,
{
    if n < 10 {
        String::from_str(digit_str(n))
    } else {
        let mut s = u64_to_string(n / 10);
        s.append(digit_str(n % 10));
        proof {
            assert(dec_digits_of((n / 10) as nat) + seq![digit_char((n % 10) as nat)]
                =~= dec_digits_of(n as nat));
        }
        s
    }
}

/// Character-for-character string equality.
pub fn str_eq(a: &str, b: &str) -> (r: bool)
    ensures
        r == (a@ == b@),
{
    let alen = a.unicode_len();
    let blen = b.unicode_len();
    if alen != blen {
        return false;
    }
    let mut i: usize = 0;
    while i < alen
        invariant
            alen == a@.len(),
            blen == b@.len(),
            alen == blen,
            0 <= i <= alen,
            forall|j: int| 0 <= j < i ==> a@[j] == b@[j],
        decreases alen - i,
    {
        if a.get_char(i) != b.get_char(i) {
            return false;
        }
        i += 1;
    }
    proof {
        assert(a@ =~= b@);
    }
    true
}

pub open spec fn starts_with(s: Seq<char>, p: Seq<char>) -> bool {
    p.len() <= s.len() && s.take(p.len() as int) == p
}

/// Whether `s` begins with the prefix `p`.
pub fn str_starts_with(s: &str, p: &str) -> (r: bool)
    ensures
        r == starts_with(s@, p@),
{
    let slen = s.unicode_len();
    let plen = p.unicode_len();
    if plen > slen {
        proof {
            assert(!starts_with(s@, p@));
        }
        return false;
    }
    let mut i: usize = 0;
    while i < plen
        invariant
            slen == s@.len(),
            plen == p@.len(),
            plen <= slen,
            0 <= i <= plen,
            forall|j: int| 0 <= j < i ==> s@[j] == p@[j],
        decreases plen - i,
    {
        if s.get_char(i) != p.get_char(i) {
            proof {
                assert(s@.take(plen as int)[i as int] != p@[i as int]);
            }
            return false;
        }
        i += 1;
    }
    proof {
        assert(s@.take(plen as int) =~= p@);
    }
    true
}

pub open spec fn is_space(c: char) -> bool {
    c == ' ' || c == '\t' || c == '\n' || c == '\r'
}

/// Index of the first non-whitespace character, or the length if there
/// is none.
pub open spec fn first_nonspace(s: Seq<char>) -> int
    decreases s.len(),
{
    if s.len() == 0 {
        0
    } else if is_space(s[0]) {
        1 + first_nonspace(s.drop_first())
    } else {
        0
    }
}

/// One past the index of the last non-whitespace character, or zero if
/// there is none.
pub open spec fn last_nonspace_end(s: Seq<char>) -> int
    decreases s.len(),
{
    if s.len() == 0 {
        0
    } else if is_space(s.last()) {
        last_nonspace_end(s.drop_last())
    } else {
        s.len() as int
    }
}

/// `s` with leading and trailing whitespace removed.
pub open spec fn trim_spec(s: Seq<char>) -> Seq<char> {
    if first_nonspace(s) == s.len() {
        Seq::empty()
    } else {
        s.subrange(first_nonspace(s), last_nonspace_end(s))
    }
}

pub proof fn lemma_first_nonspace(s: Seq<char>)
    ensures
        0 <= first_nonspace(s) <= s.len(),
        forall|j: int| 0 <= j < first_nonspace(s) ==> is_space(#[trigger] s[j]),
        first_nonspace(s) < s.len() ==> !is_space(s[first_nonspace(s)]),
    decreases s.len(),
{
    if s.len() == 0 {
    } else if is_space(s[0]) {
        lemma_first_nonspace(s.drop_first());
        assert forall|j: int| 0 <= j < first_nonspace(s) implies is_space(#[trigger] s[j]) by {
            if j > 0 {
                assert(is_space(s.drop_first()[j - 1]));
                assert(s.drop_first()[j - 1] == s[j]);
            }
        }
        if first_nonspace(s) < s.len() {
            assert(s[first_nonspace(s)] == s.drop_first()[first_nonspace(s.drop_first())]);
        }
    } else {
    }
}

pub proof fn lemma_last_nonspace_end(s: Seq<char>)
    ensures
        0 <= last_nonspace_end(s) <= s.len(),
        forall|j: int| last_nonspace_end(s) <= j < s.len() ==> is_space(#[trigger] s[j]),
        last_nonspace_end(s) > 0 ==> !is_space(s[last_nonspace_end(s) - 1]),
    decreases s.len(),
{
    if s.len() == 0 {
    } else if is_space(s.last()) {
        lemma_last_nonspace_end(s.drop_last());
        assert(forall|j: int|
            0 <= j < s.len() - 1 ==> s.drop_last()[j] == #[trigger] s[j]);
    } else {
    }
}

/// `s` with leading and trailing whitespace removed, the way the
/// dispatcher cleans an index token before reading it.
pub fn trim(s: &str) -> (r: &str)
    ensures
        r@ == trim_spec(s@),
{
    let len = s.unicode_len();
    let mut a: usize = 0;
    while a < len && is_space_exec(s.get_char(a))
        invariant
            len == s@.len(),
            0 <= a <= len,
            forall|j: int| 0 <= j < a ==> is_space(#[trigger] s@[j]),
        decreases len - a,
    {
        a += 1;
    }
    proof {
        lemma_first_nonspace(s@);
        assert(first_nonspace(s@) == a) by {
            if first_nonspace(s@) < a {
                assert(is_space(s@[first_nonspace(s@)]));
            }
            if a < first_nonspace(s@) {
                assert(is_space(s@[a as int]));
            }
        }
    }
    if a == len {
        proof {
            reveal_strlit("");
        }
        return "";
    }
    let mut b: usize = len;
    while b > a && is_space_exec(s.get_char(b - 1))
        invariant
            len == s@.len(),
            a <= b <= len,
            forall|j: int| b <= j < len ==> is_space(#[trigger] s@[j]),
            a < len && !is_space(s@[a as int]),
        decreases b,
    {
        b -= 1;
    }
    proof {
        lemma_last_nonspace_end(s@);
        assert(last_nonspace_end(s@) == b) by {
            if last_nonspace_end(s@) < b {
                assert(!is_space(s@[b - 1]));
                assert(b - 1 >= last_nonspace_end(s@));
            }
            if b < last_nonspace_end(s@) {
                assert(is_space(s@[last_nonspace_end(s@) - 1]));
            }
        }
    }
    s.substring_char(a, b)
}

/// Executable test for the whitespace characters `trim_spec` removes.
pub fn is_space_exec(c: char) -> (r: bool)
    ensures
        r == is_space(c),
{
    c == ' ' || c == '\t' || c == '\n' || c == '\r'
}

/// Parses an all-digit string into a value, refusing values above
/// `bound`; mirrors how the session turns an index token into a number.
pub fn parse_dec_bounded(s: &str, bound: u64) -> (r: Option<u64>)
    ensures
        r is Some <==> (s@.len() > 0 && all_digits(s@) && digits_val(s@) <= bound),
        r is Some ==> r->0 == digits_val(s@),
{
    let len = s.unicode_len();
    if len == 0 {
        return None;
    }
    let cap: u128 = bound as u128 + 1;
    let mut acc: u128 = 0;
    let mut i: usize = 0;
    while i < len
        invariant
            len == s@.len(),
            0 <= i <= len,
            cap == bound as u128 + 1,
            all_digits(s@.take(i as int)),
            acc == if digits_val(s@.take(i as int)) <= bound as nat {
                digits_val(s@.take(i as int)) as u128
            } else {
                cap
            },
        decreases len - i,
    {
        let c = s.get_char(i);
        let d: u128 = match char_digit(c) {
            Some(d) => d as u128,
            None => {
                proof {
                    assert(!is_digit(s@[i as int]));
                }
                return None;
            },
        };
        proof {
            assert(s@.take(i + 1).drop_last() =~= s@.take(i as int));
            assert(s@.take(i + 1).last() == s@[i as int]);
            assert(digit_val(s@[i as int]) == d);
        }
        let prev = acc;
        acc = prev * 10 + d;
        if acc > bound as u128 {
            acc = cap;
        }
        proof {
            let old_val = digits_val(s@.take(i as int));
            let new_val = digits_val(s@.take(i + 1));
            assert(new_val == old_val * 10 + d);
            if old_val > bound as nat {
                assert(new_val >= old_val) by (nonlinear_arith)
                    requires
                        new_val == old_val * 10 + d,
                        old_val >= 0,
                        d >= 0,
                ;
            }
        }
        i += 1;
    }
    proof {
        assert(s@.take(len as int) =~= s@);
    }
    if acc <= bound as u128 {
        Some(acc as u64)
    } else {
        None
    }
}


/// Index of the first space in `s`, or the length if there is none:
/// the bound of the first space-separated token.
pub open spec fn first_space_idx(s: Seq<char>) -> int
    decreases s.len(),
{
    if s.len() == 0 {
        0
    } else if s[0] == ' ' {
        0
    } else {
        1 + first_space_idx(s.drop_first())
    }
}

pub proof fn lemma_first_space_idx(s: Seq<char>)
    ensures
        0 <= first_space_idx(s) <= s.len(),
        forall|j: int| 0 <= j < first_space_idx(s) ==> (#[trigger] s[j]) != ' ',
        first_space_idx(s) < s.len() ==> s[first_space_idx(s)] == ' ',
    decreases s.len(),
{
    if s.len() == 0 {
    } else if s[0] == ' ' {
    } else {
        lemma_first_space_idx(s.drop_first());
        assert forall|j: int| 0 <= j < first_space_idx(s) implies (#[trigger] s[j]) != ' ' by {
            if j > 0 {
                assert(s.drop_first()[j - 1] != ' ');
                assert(s.drop_first()[j - 1] == s[j]);
            }
        }
        if first_space_idx(s) < s.len() {
            assert(s[first_space_idx(s)] == s.drop_first()[first_space_idx(s.drop_first())]);
        }
    }
}

/// The text before the first space, the way the extractor takes the
/// leading token of a count such as `"1.2K views"`.
pub fn first_token(s: &str) -> (r: &str)
    ensures
        r@ == s@.take(first_space_idx(s@)),
{
    let len = s.unicode_len();
    let mut i: usize = 0;
    while i < len && s.get_char(i) != ' '
        invariant
            len == s@.len(),
            0 <= i <= len,
            forall|j: int| 0 <= j < i ==> (#[trigger] s@[j]) != ' ',
        decreases len - i,
    {
        i += 1;
    }
    proof {
        lemma_first_space_idx(s@);
        assert(first_space_idx(s@) == i) by {
            if first_space_idx(s@) < i {
                assert(s@[first_space_idx(s@)] == ' ');
            }
            if i < first_space_idx(s@) {
                assert(s@[i as int] != ' ');
                assert(i < len);
            }
        }
    }
    s.substring_char(0, i)
}


/// The view of an optional owned string.
pub open spec fn opt_view(o: Option<String>) -> Option<Seq<char>> {
    match o {
        Some(s) => Some(s@),
        None => None,
    }
}

/// The views of a list of optional owned strings.
pub open spec fn opt_str_views(v: Seq<Option<String>>) -> Seq<Option<Seq<char>>> {
    v.map_values(|o: Option<String>| opt_view(o))
}

} // verus!
