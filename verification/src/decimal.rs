//! Decimal notation for integers: printing a number as characters and
//! reading it back, with the round trip proved.

use vstd::prelude::*;
use vstd::arithmetic::div_mod::lemma_fundamental_div_mod;

verus! {

pub open spec fn digit_char(d: int) -> char
    recommends
        0 <= d < 10,
{
    if d == 0 {
        '0'
    } else if d == 1 {
        '1'
    } else if d == 2 {
        '2'
    } else if d == 3 {
        '3'
    } else if d == 4 {
        '4'
    } else if d == 5 {
        '5'
    } else if d == 6 {
        '6'
    } else if d == 7 {
        '7'
    } else if d == 8 {
        '8'
    } else {
        '9'
    }
}

/// The value of a digit character, or -1 for any other character.
pub open spec fn digit_val(c: char) -> int {
    if c == '0' {
        0
    } else if c == '1' {
        1
    } else if c == '2' {
        2
    } else if c == '3' {
        3
    } else if c == '4' {
        4
    } else if c == '5' {
        5
    } else if c == '6' {
        6
    } else if c == '7' {
        7
    } else if c == '8' {
        8
    } else if c == '9' {
        9
    } else {
        -1
    }
}

pub open spec fn is_digit(c: char) -> bool {
    digit_val(c) >= 0
}

/// The canonical decimal digits of a natural number, most significant
/// first, without leading zeros (a lone zero for 0).
pub open spec fn nat_chars(n: nat) -> Seq<char>
    decreases n,
{
    if n < 10 {
        seq![digit_char(n as int)]
    } else {
        nat_chars(n / 10).push(digit_char((n % 10) as int))
    }
}

/// The canonical decimal notation of an integer: a minus sign for
/// negative numbers, then the digits of the magnitude.
pub open spec fn int_chars(i: int) -> Seq<char> {
    if i < 0 {
        seq!['-'] + nat_chars((-i) as nat)
    } else {
        nat_chars(i as nat)
    }
}

pub open spec fn all_digits(s: Seq<char>) -> bool {
    forall|k: int| 0 <= k < s.len() ==> is_digit(#[trigger] s[k])
}

/// The number denoted by a sequence of digit characters.
pub open spec fn digits_value(s: Seq<char>) -> int
    decreases s.len(),
{
    if s.len() == 0 {
        0
    } else {
        digits_value(s.drop_last()) * 10 + digit_val(s.last())
    }
}

/// What a non-empty, all-digit character sequence denotes.
pub open spec fn parse_nat(s: Seq<char>) -> Option<int> {
    if s.len() > 0 && all_digits(s) {
        Some(digits_value(s))
    } else {
        None
    }
}

/// What an optionally signed decimal literal denotes: an optional `-` or
/// `+` followed by at least one digit; anything else denotes nothing.
pub open spec fn parse_int(s: Seq<char>) -> Option<int> {
    if s.len() >= 1 && s[0] == '-' {
        match parse_nat(s.drop_first()) {
            Some(v) => Some(-v),
            None => None,
        }
    } else if s.len() >= 1 && s[0] == '+' {
        parse_nat(s.drop_first())
    } else {
        parse_nat(s)
    }
}

/// The sign applied by an optional leading minus.
pub open spec fn signed_result(neg: bool, pn: Option<int>) -> Option<int> {
    match pn {
        Some(v) => Some(
            if neg {
                -v
            } else {
                v
            },
        ),
        None => None,
    }
}

pub open spec fn pow10(k: nat) -> int
    decreases k,
{
    if k == 0 {
        1
    } else {
        10 * pow10((k - 1) as nat)
    }
}

pub proof fn lemma_nat_chars_digits(n: nat)
    ensures
        all_digits(nat_chars(n)),
        nat_chars(n).len() >= 1,
        is_digit(nat_chars(n)[0]),
    decreases n,
{
    if n < 10 {
    } else {
        lemma_nat_chars_digits(n / 10);
        let s = nat_chars(n / 10);
        let t = nat_chars(n);
        assert(t == s.push(digit_char((n % 10) as int)));
        assert forall|k: int| 0 <= k < t.len() implies is_digit(#[trigger] t[k]) by {
            if k < s.len() {
                assert(t[k] == s[k]);
            } else {
                assert(t[k] == digit_char((n % 10) as int));
            }
        }
        assert(t[0] == s[0]);
    }
}

proof fn lemma_digit_roundtrip(d: int)
    requires
        0 <= d < 10,
    ensures
        digit_val(digit_char(d)) == d,
{
    if d == 0 {
    } else if d == 1 {
    } else if d == 2 {
    } else if d == 3 {
    } else if d == 4 {
    } else if d == 5 {
    } else if d == 6 {
    } else if d == 7 {
    } else if d == 8 {
    } else {
    }
}

pub proof fn lemma_nat_chars_value(n: nat)
    ensures
        digits_value(nat_chars(n)) == n,
    decreases n,
{
    if n < 10 {
        assert(nat_chars(n).drop_last() =~= Seq::<char>::empty());
        assert(digits_value(Seq::<char>::empty()) == 0);
        lemma_digit_roundtrip(n as int);
        assert(nat_chars(n).last() == digit_char(n as int));
    } else {
        lemma_nat_chars_value(n / 10);
        lemma_digit_roundtrip((n % 10) as int);
        let s = nat_chars(n);
        assert(s.drop_last() =~= nat_chars(n / 10));
        assert(s.last() == digit_char((n % 10) as int));
        lemma_fundamental_div_mod(n as int, 10);
    }
}

/// The canonical notation parses back to the number it was printed from.
pub proof fn lemma_int_chars_parse(i: int)
    ensures
        parse_int(int_chars(i)) == Some(i),
{
    if i < 0 {
        let m = (-i) as nat;
        lemma_nat_chars_digits(m);
        lemma_nat_chars_value(m);
        let s = int_chars(i);
        assert(s[0] == '-');
        assert(s.drop_first() =~= nat_chars(m));
    } else {
        lemma_nat_chars_digits(i as nat);
        lemma_nat_chars_value(i as nat);
        let s = int_chars(i);
        assert(s == nat_chars(i as nat));
        assert(is_digit(s[0]));
        assert(s[0] != '-' && s[0] != '+');
    }
}

/// Every character of the canonical notation is a digit or a leading
/// minus sign; in particular none is a space, quote, backslash or line
/// break.
pub proof fn lemma_int_chars_shape(i: int)
    ensures
        int_chars(i).len() >= 1,
        forall|k: int|
            0 <= k < int_chars(i).len() ==> (is_digit(#[trigger] int_chars(i)[k]) || (k == 0
                && int_chars(i)[k] == '-')),
{
    if i < 0 {
        lemma_nat_chars_digits((-i) as nat);
        let s = int_chars(i);
        let t = nat_chars((-i) as nat);
        assert forall|k: int| 0 <= k < s.len() implies (is_digit(#[trigger] s[k]) || (k == 0 && s[k]
            == '-')) by {
            if k > 0 {
                assert(s[k] == t[k - 1]);
            }
        }
    } else {
        lemma_nat_chars_digits(i as nat);
    }
}

pub proof fn lemma_digits_value_lower(s: Seq<char>)
    requires
        all_digits(s),
        s.len() >= 1,
        digit_val(s[0]) >= 1,
    ensures
        digits_value(s) >= pow10((s.len() - 1) as nat),
    decreases s.len(),
{
    if s.len() == 1 {
        assert(s.drop_last() =~= Seq::<char>::empty());
        assert(digits_value(Seq::<char>::empty()) == 0);
        assert(s.last() == s[0]);
        assert(digits_value(s) == digit_val(s[0]));
    } else {
        let t = s.drop_last();
        assert forall|k: int| 0 <= k < t.len() implies is_digit(#[trigger] t[k]) by {
            assert(t[k] == s[k]);
        }
        assert(t[0] == s[0]);
        lemma_digits_value_lower(t);
        assert(is_digit(s[s.len() - 1]));
        assert(digits_value(t) * 10 >= pow10((s.len() - 2) as nat) * 10);
        assert(pow10((s.len() - 1) as nat) == 10 * pow10((s.len() - 2) as nat));
    }
}

/// Leading zeros do not change the denoted number.
pub proof fn lemma_digits_value_skip_zeros(s: Seq<char>, z: int)
    requires
        0 <= z <= s.len(),
        forall|k: int| 0 <= k < z ==> s[k] == '0',
    ensures
        digits_value(s) == digits_value(s.subrange(z, s.len() as int)),
    decreases s.len(),
{
    if z == 0 {
        assert(s.subrange(0, s.len() as int) =~= s);
    } else if z == s.len() {
        lemma_all_zeros_value(s);
        assert(s.subrange(z, s.len() as int) =~= Seq::<char>::empty());
    } else {
        let t = s.drop_last();
        lemma_digits_value_skip_zeros(t, z);
        assert(t.subrange(z, t.len() as int).push(s.last()) =~= s.subrange(z, s.len() as int));
        assert(s.subrange(z, s.len() as int).drop_last() =~= t.subrange(z, t.len() as int));
    }
}

pub proof fn lemma_all_zeros_value(s: Seq<char>)
    requires
        forall|k: int| 0 <= k < s.len() ==> s[k] == '0',
    ensures
        digits_value(s) == 0,
    decreases s.len(),
{
    if s.len() == 0 {
    } else {
        let t = s.drop_last();
        assert forall|k: int| 0 <= k < t.len() implies t[k] == '0' by {
            assert(t[k] == s[k]);
        }
        lemma_all_zeros_value(t);
    }
}

fn digit_to_char(d: u64) -> (c: char)
    requires
        d < 10,
    ensures
        c == digit_char(d as int),
{
    if d == 0 {
        '0'
    } else if d == 1 {
        '1'
    } else if d == 2 {
        '2'
    } else if d == 3 {
        '3'
    } else if d == 4 {
        '4'
    } else if d == 5 {
        '5'
    } else if d == 6 {
        '6'
    } else if d == 7 {
        '7'
    } else if d == 8 {
        '8'
    } else {
        '9'
    }
}

fn char_to_digit(c: char) -> (r: Option<u64>)
    ensures
        match r {
            Some(d) => d < 10 && digit_val(c) == d,
            None => !is_digit(c),
        },
{
    if c == '0' {
        Some(0)
    } else if c == '1' {
        Some(1)
    } else if c == '2' {
        Some(2)
    } else if c == '3' {
        Some(3)
    } else if c == '4' {
        Some(4)
    } else if c == '5' {
        Some(5)
    } else if c == '6' {
        Some(6)
    } else if c == '7' {
        Some(7)
    } else if c == '8' {
        Some(8)
    } else if c == '9' {
        Some(9)
    } else {
        None
    }
}

/// The decimal digits of a natural number, as characters.
pub fn u64_digits(n: u64) -> (v: Vec<char>)
    ensures
        v@ == nat_chars(n as nat),
{
    let mut rev: Vec<char> = Vec::new();
    rev.push(digit_to_char(n % 10));
    let mut m: u64 = n / 10;
    proof {
        if m == 0 {
            assert(rev@.reverse() =~= seq![digit_char((n % 10) as int)]);
            assert(nat_chars(n as nat) == seq![digit_char(n as int)]);
            assert(n % 10 == n as int);
        } else {
            assert(nat_chars(n as nat) =~= nat_chars((n / 10) as nat) + rev@.reverse());
        }
    }
    while m > 0
        invariant
            rev@.len() >= 1,
            nat_chars(n as nat) == (if m > 0 {
                nat_chars(m as nat)
            } else {
                Seq::<char>::empty()
            }) + rev@.reverse(),
        decreases m,
    {
        let d = m % 10;
        rev.push(digit_to_char(d));
        let ghost old_rev = rev@.drop_last();
        proof {
            assert(rev@.reverse() =~= seq![digit_char(d as int)] + old_rev.reverse());
        }
        let m0 = m;
        m = m / 10;
        proof {
            if m > 0 {
                assert(nat_chars(m0 as nat) == nat_chars((m0 / 10) as nat).push(
                    digit_char((m0 % 10) as int),
                ));
                assert(nat_chars(m0 as nat) + old_rev.reverse() =~= nat_chars((m0 / 10) as nat)
                    + rev@.reverse());
            } else {
                assert(m0 < 10);
                assert(nat_chars(m0 as nat) + old_rev.reverse() =~= Seq::<char>::empty()
                    + rev@.reverse());
            }
        }
    }
    let mut v: Vec<char> = Vec::new();
    let mut j: usize = 0;
    while j < rev.len()
        invariant
            j <= rev@.len(),
            v@.len() == j,
            forall|k: int| 0 <= k < j ==> v@[k] == rev@[rev@.len() - 1 - k],
        decreases rev.len() - j,
    {
        v.push(rev[rev.len() - 1 - j]);
        j += 1;
    }
    proof {
        assert(v@ =~= rev@.reverse());
        assert(Seq::<char>::empty() + rev@.reverse() =~= rev@.reverse());
    }
    v
}

/// The decimal notation of an integer, as characters.
pub fn i64_chars(i: i64) -> (v: Vec<char>)
    requires
        i64::MIN < i,
    ensures
        v@ == int_chars(i as int),
{
    if i < 0 {
        let mut v: Vec<char> = Vec::new();
        v.push('-');
        let mag = u64_digits((-i) as u64);
        crate::strutil::chars_extend(&mut v, &mag);
        proof {
            assert(seq!['-'] + mag@ =~= v@);
        }
        v
    } else {
        u64_digits(i as u64)
    }
}

/// Reads an optionally signed decimal literal; the result is present
/// exactly when the characters denote a number that fits in `i64`.
pub fn parse_int_chars(s: &Vec<char>) -> (r: Option<i64>)
    ensures
        match parse_int(s@) {
            Some(v) => if i64::MIN <= v <= i64::MAX {
                r == Some(v as i64)
            } else {
                r is None
            },
            None => r is None,
        },
{
    if s.len() == 0 {
        return None;
    }
    let mut idx: usize = 0;
    let mut neg = false;
    let c0 = s[0];
    if c0 == '-' {
        neg = true;
        idx = 1;
    } else if c0 == '+' {
        idx = 1;
    }
    let ghost digits = s@.subrange(idx as int, s@.len() as int);
    proof {
        if idx == 1 {
            assert(s@.drop_first() =~= digits);
        } else {
            assert(s@ =~= digits);
        }
        assert(parse_int(s@) == signed_result(neg, parse_nat(digits)));
    }
    if idx == s.len() {
        // a bare sign, or nothing after it: no digits
        return None;
    }
    // every remaining character must be a digit
    let mut j: usize = idx;
    while j < s.len()
        invariant
            idx <= j <= s@.len(),
            idx <= 1,
            digits == s@.subrange(idx as int, s@.len() as int),
            parse_int(s@) == signed_result(neg, parse_nat(digits)),
            forall|k: int| idx <= k < j ==> is_digit(#[trigger] s@[k]),
        decreases s@.len() - j,
    {
        if char_to_digit(s[j]).is_none() {
            proof {
                assert(!is_digit(digits[j - idx]));
                assert(!all_digits(digits));
            }
            return None;
        }
        j += 1;
    }
    proof {
        assert forall|k: int| 0 <= k < digits.len() implies is_digit(#[trigger] digits[k]) by {
            assert(digits[k] == s@[k + idx]);
        }
    }
    // skip leading zeros of the digit run
    let mut z: usize = idx;
    while z < s.len() && s[z] == '0'
        invariant
            idx <= z <= s@.len(),
            forall|k: int| idx <= k < z ==> s@[k] == '0',
        decreases s@.len() - z,
    {
        z += 1;
    }
    let ghost trimmed = s@.subrange(z as int, s@.len() as int);
    proof {
        assert forall|k: int| 0 <= k < z - idx implies digits[k] == '0' by {
            assert(digits[k] == s@[k + idx]);
        }
        lemma_digits_value_skip_zeros(digits, z - idx);
        assert(digits.subrange(z - idx, digits.len() as int) =~= trimmed);
        assert forall|k: int| 0 <= k < trimmed.len() implies is_digit(#[trigger] trimmed[k]) by {
            assert(trimmed[k] == s@[k + z]);
        }
    }
    if s.len() - z > 19 {
        // at least twenty significant digits: past either end of i64
        proof {
            assert(trimmed[0] == s@[z as int]);
            assert(digit_val(trimmed[0]) >= 1);
            lemma_digits_value_lower(trimmed);
            lemma_pow10_increases(19, (trimmed.len() - 1) as nat);
            lemma_pow10_19();
            assert(digits_value(digits) >= 10_000_000_000_000_000_000);
            assert(digits.len() > 0);
            assert(parse_nat(digits) == Some(digits_value(digits)));
        }
        return None;
    }
    let mut mag: u64 = 0;
    let mut p: usize = z;
    while p < s.len()
        invariant
            z <= p <= s@.len(),
            s@.len() - z <= 19,
            trimmed == s@.subrange(z as int, s@.len() as int),
            all_digits(trimmed),
            mag == digits_value(trimmed.subrange(0, p - z)),
            mag < pow10((p - z) as nat),
        decreases s@.len() - p,
    {
        let d = match char_to_digit(s[p]) {
            Some(d) => d,
            None => {
                proof {
                    assert(is_digit(trimmed[p - z]));
                    assert(trimmed[p - z] == s@[p as int]);
                }
                return None;
            },
        };
        proof {
            let pre = trimmed.subrange(0, p - z);
            let cur = trimmed.subrange(0, p - z + 1);
            assert(cur.drop_last() =~= pre);
            assert(cur.last() == trimmed[p - z]);
            assert(trimmed[p - z] == s@[p as int]);
            assert(mag * 10 + d < pow10((p - z) as nat) * 10) by (nonlinear_arith)
                requires
                    mag < pow10((p - z) as nat),
                    d < 10,
            ;
            assert(pow10((p - z + 1) as nat) == 10 * pow10((p - z) as nat));
            lemma_pow10_increases((p - z + 1) as nat, 19);
            lemma_pow10_19();
            assert(mag * 10 + d < 10_000_000_000_000_000_000);
        }
        mag = mag * 10 + d;
        p += 1;
    }
    proof {
        assert(trimmed.subrange(0, trimmed.len() as int) =~= trimmed);
        assert(digits_value(digits) == mag);
        assert(parse_int(s@) == Some(if neg {
            -digits_value(digits)
        } else {
            digits_value(digits)
        }));
    }
    if neg {
        if mag > 9_223_372_036_854_775_808u64 {
            return None;
        }
        if mag == 9_223_372_036_854_775_808u64 {
            return Some(i64::MIN);
        }
        Some(-(mag as i64))
    } else {
        if mag > 9_223_372_036_854_775_807u64 {
            return None;
        }
        Some(mag as i64)
    }
}

pub proof fn lemma_pow10_pos(a: nat)
    ensures
        pow10(a) >= 1,
    decreases a,
{
    if a > 0 {
        lemma_pow10_pos((a - 1) as nat);
    }
}

pub proof fn lemma_pow10_increases(a: nat, b: nat)
    requires
        a <= b,
    ensures
        pow10(a) <= pow10(b),
    decreases b,
{
    if a < b {
        lemma_pow10_increases(a, (b - 1) as nat);
        lemma_pow10_pos((b - 1) as nat);
        assert(pow10(b) == 10 * pow10((b - 1) as nat));
    }
}

proof fn lemma_pow10_19()
    ensures
        pow10(19) == 10_000_000_000_000_000_000,
{
    reveal_with_fuel(pow10, 21);
}

} // verus!
