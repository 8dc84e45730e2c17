//! Decimal rendering and reading of the integers the engine stores:
//! plain signed values, and non-negative fixed-point values kept in
//! hundredths (rendered with exactly two decimal places).

use vstd::prelude::*;

verus! {

/// The character for one decimal digit.
pub open spec fn spec_digit_char(d: int) -> char {
    if d == 0 {
        '0'
    } else if d == 1 {
        '1'
    } else if d == 2 {
        '2'
    } else if d == 3 {
        '3'
    } else if d == 4 {
        '4'
    } else if d == 5 {
        '5'
    } else if d == 6 {
        '6'
    } else if d == 7 {
        '7'
    } else if d == 8 {
        '8'
    } else {
        '9'
    }
}

/// The numeric value of one decimal digit character, `-1` for any other
/// character.
pub open spec fn spec_digit_val(c: char) -> int {
    if c == '0' {
        0
    } else if c == '1' {
        1
    } else if c == '2' {
        2
    } else if c == '3' {
        3
    } else if c == '4' {
        4
    } else if c == '5' {
        5
    } else if c == '6' {
        6
    } else if c == '7' {
        7
    } else if c == '8' {
        8
    } else if c == '9' {
        9
    } else {
        -1
    }
}

/// Canonical decimal rendering of a non-negative integer: no sign, no
/// leading zeros (a single `'0'` for zero).
pub open spec fn spec_udec(n: nat) -> Seq<char>
    decreases n,
{
    if n < 10 {
        seq![spec_digit_char(n as int)]
    } else {
        spec_udec(n / 10).push(spec_digit_char((n % 10) as int))
    }
}

/// Canonical decimal rendering of a signed integer.
pub open spec fn spec_idec(x: int) -> Seq<char> {
    if x < 0 {
        seq!['-'] + spec_udec((-x) as nat)
    } else {
        spec_udec(x as nat)
    }
}

/// Rendering of a non-negative value kept in hundredths, with exactly two
/// decimal places: `150` is rendered `1.50`.
pub open spec fn spec_fixed2(c: int) -> Seq<char> {
    spec_udec((c / 100) as nat) + seq![
        '.',
        spec_digit_char((c / 10) % 10),
        spec_digit_char(c % 10),
    ]
}

/// Every character of `s` is a decimal digit, and there is at least one.
pub open spec fn is_digit_seq(s: Seq<char>) -> bool {
    s.len() > 0 && forall|i: int| 0 <= i < s.len() ==> spec_digit_val(#[trigger] s[i]) >= 0
}

/// The numeric value of a digit sequence, most significant digit first.
pub open spec fn spec_dec_val(s: Seq<char>) -> int
    decreases s.len(),
{
    if s.len() == 0 {
        0
    } else {
        spec_dec_val(s.drop_last()) * 10 + spec_digit_val(s.last())
    }
}

/// The canonical rendering of `n` is all digits, does not start with a
/// leading zero unless it is exactly "0", and reads back as `n`.
pub proof fn lemma_udec_val(n: nat)
    ensures
        is_digit_seq(spec_udec(n)),
        spec_dec_val(spec_udec(n)) == n,
        spec_udec(n).len() >= 1,
        n >= 1 ==> spec_udec(n)[0] != '0',
    decreases n,
{
    if n < 10 {
        let s = spec_udec(n);
        assert(s == seq![spec_digit_char(n as int)]);
        assert(s.len() == 1);
        assert(s.drop_last().len() == 0);
        assert(spec_dec_val(s.drop_last()) == 0);
        assert(s.last() == spec_digit_char(n as int));
        assert(spec_digit_val(spec_digit_char(n as int)) == n);
        assert(spec_dec_val(s) == n);
    } else {
        lemma_udec_val(n / 10);
        let prefix = spec_udec(n / 10);
        let whole = spec_udec(n);
        assert(whole == prefix.push(spec_digit_char((n % 10) as int)));
        assert(whole.drop_last() == prefix);
        assert(whole.last() == spec_digit_char((n % 10) as int));
        assert(spec_dec_val(whole) == spec_dec_val(prefix) * 10 + (n % 10));
        assert(forall|i: int| 0 <= i < whole.len() ==> spec_digit_val(#[trigger] whole[i]) >= 0);
    }
}

/// Rendering one digit and reading it back is the identity.
pub proof fn lemma_digit_char_val(d: int)
    requires
        0 <= d <= 9,
    ensures
        spec_digit_val(spec_digit_char(d)) == d,
{
}

/// A digit sequence read back is never negative.
pub proof fn lemma_dec_val_nonneg(s: Seq<char>)
    requires
        forall|i: int| 0 <= i < s.len() ==> spec_digit_val(#[trigger] s[i]) >= 0,
    ensures
        spec_dec_val(s) >= 0,
    decreases s.len(),
{
    if s.len() > 0 {
        assert(forall|i: int| 0 <= i < s.drop_last().len() ==> s.drop_last()[i] == s[i]);
        lemma_dec_val_nonneg(s.drop_last());
    }
}

/// Reading more digits never shrinks the value.
pub proof fn lemma_dec_val_prefix_le(s: Seq<char>, j: int)
    requires
        forall|i: int| 0 <= i < s.len() ==> spec_digit_val(#[trigger] s[i]) >= 0,
        0 <= j <= s.len(),
    ensures
        0 <= spec_dec_val(s.take(j)) <= spec_dec_val(s),
    decreases s.len() - j,
{
    assert(forall|i: int| 0 <= i < j ==> s.take(j)[i] == s[i]);
    lemma_dec_val_nonneg(s.take(j));
    if j == s.len() {
        assert(s.take(j) =~= s);
    } else {
        assert(s.take(j + 1).drop_last() =~= s.take(j));
        assert(s.take(j + 1).last() == s[j]);
        assert(spec_dec_val(s.take(j + 1)) == spec_dec_val(s.take(j)) * 10 + spec_digit_val(s[j]));
        lemma_dec_val_prefix_le(s, j + 1);
    }
}

/// Index of the first non-digit character at or after `from`, or the end.
pub open spec fn spec_digit_run_end(s: Seq<char>, from: int) -> int
    decreases s.len() - from,
{
    if from < 0 || from >= s.len() {
        s.len() as int
    } else if spec_digit_val(s[from]) < 0 {
        from
    } else {
        spec_digit_run_end(s, from + 1)
    }
}

/// Everything before the run's end is a digit, and the end is in range.
pub proof fn lemma_digit_run_digits(s: Seq<char>, from: int)
    requires
        0 <= from <= s.len(),
    ensures
        from <= spec_digit_run_end(s, from) <= s.len(),
        forall|k: int|
            from <= k < spec_digit_run_end(s, from) ==> spec_digit_val(#[trigger] s[k]) >= 0,
    decreases s.len() - from,
{
    if from < s.len() && spec_digit_val(s[from]) >= 0 {
        lemma_digit_run_digits(s, from + 1);
    }
}

/// The digit run ends exactly where the digits stop.
pub proof fn lemma_digit_run_end_at(s: Seq<char>, from: int, j: int)
    requires
        0 <= from <= j <= s.len(),
        forall|k: int| from <= k < j ==> spec_digit_val(#[trigger] s[k]) >= 0,
        j == s.len() || spec_digit_val(s[j]) < 0,
    ensures
        spec_digit_run_end(s, from) == j,
    decreases j - from,
{
    if from < j {
        lemma_digit_run_end_at(s, from + 1, j);
    }
}

/// Read a canonical decimal run starting at `from`: at least one digit, no
/// leading zero (unless the run is exactly "0"), value at most `cap`. The
/// run read is maximal: it ends at the first non-digit.
pub fn scan_u32(s: &str, from: usize, cap: u32) -> (r: Option<(u32, usize)>)
    requires
        from <= s@.len(),
        cap >= 9,
    ensures
        ({
            let e = spec_digit_run_end(s@, from as int);
            match r {
                Some(p) => {
                    &&& p.1 as int == e
                    &&& from < p.1 <= s@.len()
                    &&& p.0 as int == spec_dec_val(s@.subrange(from as int, e))
                    &&& p.0 <= cap
                    &&& (e == from + 1 || s@[from as int] != '0')
                },
                None => {
                    ||| e == from
                    ||| (e - from > 1 && s@[from as int] == '0')
                    ||| spec_dec_val(s@.subrange(from as int, e)) > cap
                },
            }
        }),
{
    let n = s.unicode_len();
    let ghost e = spec_digit_run_end(s@, from as int);
    let mut i: usize = from;
    let mut val: u64 = 0;
    while i < n
        invariant
            n == s@.len(),
            from <= i <= n,
            e == spec_digit_run_end(s@, from as int),
            forall|k: int| from <= k < i ==> spec_digit_val(#[trigger] s@[k]) >= 0,
            val as int == spec_dec_val(s@.subrange(from as int, i as int)),
            val <= cap,
        ensures
            from <= i <= n,
            forall|k: int| from <= k < i ==> spec_digit_val(#[trigger] s@[k]) >= 0,
            i == n || spec_digit_val(s@[i as int]) < 0 || val as int * 10 + spec_digit_val(
                s@[i as int],
            ) > cap,
            val as int == spec_dec_val(s@.subrange(from as int, i as int)),
            val <= cap,
        decreases n - i,
    {
        let c = s.get_char(i);
        let d: u64 = if c == '0' {
            0
        } else if c == '1' {
            1
        } else if c == '2' {
            2
        } else if c == '3' {
            3
        } else if c == '4' {
            4
        } else if c == '5' {
            5
        } else if c == '6' {
            6
        } else if c == '7' {
            7
        } else if c == '8' {
            8
        } else if c == '9' {
            9
        } else {
            break ;
        };
        assert(d as int == spec_digit_val(s@[i as int]));
        if val * 10 + d > cap as u64 {
            break ;
        }
        let ghost prev = s@.subrange(from as int, i as int);
        val = val * 10 + d;
        proof {
            assert(s@.subrange(from as int, i as int + 1).drop_last() =~= prev);
            assert(s@.subrange(from as int, i as int + 1).last() == s@[i as int]);
        }
        i = i + 1;
    }
    if i == from {
        proof {
            lemma_digit_run_end_at(s@, from as int, from as int);
        }
        return None;
    }
    if i < n {
        let c = s.get_char(i);
        let still_digit = c == '0' || c == '1' || c == '2' || c == '3' || c == '4' || c == '5'
            || c == '6' || c == '7' || c == '8' || c == '9';
        if still_digit {
            // the next digit would push the value past the cap
            proof {
                let full = s@.subrange(from as int, e);
                lemma_digit_run_end_at_ge(s@, from as int, i as int + 1);
                lemma_digit_run_digits(s@, from as int);
                assert(forall|k: int|
                    0 <= k < full.len() ==> full[k] == s@[k + from]);
                lemma_dec_val_prefix_le(full, i + 1 - from);
                assert(full.take(i + 1 - from) =~= s@.subrange(from as int, i as int + 1));
                assert(s@.subrange(from as int, i as int + 1).drop_last() =~= s@.subrange(
                    from as int, i as int));
                assert(spec_dec_val(s@.subrange(from as int, i as int + 1)) == val as int * 10
                    + spec_digit_val(s@[i as int]));
            }
            return None;
        }
        proof {
            lemma_digit_run_end_at(s@, from as int, i as int);
        }
    } else {
        proof {
            lemma_digit_run_end_at(s@, from as int, n as int);
        }
    }
    if i > from + 1 && s.get_char(from) == '0' {
        return None;
    }
    Some((val as u32, i))
}

/// A digit run that continues past `j` has its end at or past `j`.
proof fn lemma_digit_run_end_at_ge(s: Seq<char>, from: int, j: int)
    requires
        0 <= from <= j <= s.len(),
        forall|k: int| from <= k < j ==> spec_digit_val(#[trigger] s[k]) >= 0,
    ensures
        spec_digit_run_end(s, from) >= j,
    decreases j - from,
{
    if from < j {
        assert(spec_digit_val(s[from]) >= 0);
        lemma_digit_run_end_at_ge(s, from + 1, j);
        assert(spec_digit_run_end(s, from) == spec_digit_run_end(s, from + 1));
    } else {
        lemma_digit_run_digits(s, from);
    }
}

/// Read a canonical signed decimal run at `from`: an optional minus sign,
/// then a canonical digit run with magnitude at most `limit`.
pub fn scan_i32(s: &str, from: usize, limit: u32) -> (r: Option<(i32, usize)>)
    requires
        from <= s@.len(),
        9 <= limit <= i32::MAX as u32,
    ensures
        ({
            let neg = from < s@.len() && s@[from as int] == '-';
            let d0 = if neg {
                from + 1
            } else {
                from as int
            };
            let e = spec_digit_run_end(s@, d0);
            match r {
                Some(p) => {
                    &&& d0 <= s@.len()
                    &&& p.1 as int == e
                    &&& d0 < e <= s@.len()
                    &&& (e == d0 + 1 || s@[d0] != '0')
                    &&& spec_dec_val(s@.subrange(d0, e)) <= limit
                    &&& p.0 as int == if neg {
                        -spec_dec_val(s@.subrange(d0, e))
                    } else {
                        spec_dec_val(s@.subrange(d0, e))
                    }
                },
                None => {
                    ||| d0 > s@.len()
                    ||| e == d0
                    ||| (e - d0 > 1 && s@[d0] == '0')
                    ||| spec_dec_val(s@.subrange(d0, e)) > limit
                },
            }
        }),
{
    let n = s.unicode_len();
    if from < n && s.get_char(from) == '-' {
        match scan_u32(s, from + 1, limit) {
            Some((v, e)) => Some((-(v as i32), e)),
            None => None,
        }
    } else {
        match scan_u32(s, from, limit) {
            Some((v, e)) => Some((v as i32, e)),
            None => None,
        }
    }
}

fn digit_of(c: char) -> (r: Option<u32>)
    ensures
        match r {
            Some(d) => d as int == spec_digit_val(c) && d < 10,
            None => spec_digit_val(c) < 0,
        },
{
    if c == '0' {
        Some(0)
    } else if c == '1' {
        Some(1)
    } else if c == '2' {
        Some(2)
    } else if c == '3' {
        Some(3)
    } else if c == '4' {
        Some(4)
    } else if c == '5' {
        Some(5)
    } else if c == '6' {
        Some(6)
    } else if c == '7' {
        Some(7)
    } else if c == '8' {
        Some(8)
    } else if c == '9' {
        Some(9)
    } else {
        None
    }
}

/// Read a canonical two-decimal fixed-point value at `from`: a canonical
/// integer digit run, a dot, then exactly two digits; the value is in
/// hundredths and at most `cap`.
pub fn scan_fixed2(s: &str, from: usize, cap: u32) -> (r: Option<(u32, usize)>)
    requires
        from <= s@.len(),
        cap >= 9,
    ensures
        ({
            let e = spec_digit_run_end(s@, from as int);
            match r {
                Some(p) => {
                    &&& from < e
                    &&& e + 3 <= s@.len()
                    &&& s@[e] == '.'
                    &&& spec_digit_val(s@[e + 1]) >= 0
                    &&& spec_digit_val(s@[e + 2]) >= 0
                    &&& (e == from + 1 || s@[from as int] != '0')
                    &&& p.0 as int == spec_dec_val(s@.subrange(from as int, e)) * 100
                        + spec_digit_val(s@[e + 1]) * 10 + spec_digit_val(s@[e + 2])
                    &&& p.0 <= cap
                    &&& p.1 as int == e + 3
                },
                None => {
                    ||| e == from
                    ||| (e - from > 1 && s@[from as int] == '0')
                    ||| spec_dec_val(s@.subrange(from as int, e)) > cap
                    ||| e + 3 > s@.len()
                    ||| s@[e] != '.'
                    ||| spec_digit_val(s@[e + 1]) < 0
                    ||| spec_digit_val(s@[e + 2]) < 0
                    ||| spec_dec_val(s@.subrange(from as int, e)) * 100 + spec_digit_val(
                        s@[e + 1],
                    ) * 10 + spec_digit_val(s@[e + 2]) > cap
                },
            }
        }),
{
    let n = s.unicode_len();
    let ip_scan = scan_u32(s, from, cap);
    match ip_scan {
        None => None,
        Some((ip, e)) => {
            if e >= n || n - e < 3 {
                return None;
            }
            if s.get_char(e) != '.' {
                return None;
            }
            let d1 = match digit_of(s.get_char(e + 1)) {
                Some(d) => d,
                None => {
                    return None;
                },
            };
            let d2 = match digit_of(s.get_char(e + 2)) {
                Some(d) => d,
                None => {
                    return None;
                },
            };
            let total = ip as u64 * 100 + d1 as u64 * 10 + d2 as u64;
            if total > cap as u64 {
                return None;
            }
            Some((total as u32, e + 3))
        },
    }
}

/// One decimal digit as a string slice.
fn digit_str(d: u32) -> (r: &'static str)
    requires
        d < 10,
    ensures
        r@ =~= seq![spec_digit_char(d as int)],
{
    let r: &'static str = if d == 0 {
        "0"
    } else if d == 1 {
        "1"
    } else if d == 2 {
        "2"
    } else if d == 3 {
        "3"
    } else if d == 4 {
        "4"
    } else if d == 5 {
        "5"
    } else if d == 6 {
        "6"
    } else if d == 7 {
        "7"
    } else if d == 8 {
        "8"
    } else {
        "9"
    };
    proof {
        reveal_strlit("0");
        reveal_strlit("1");
        reveal_strlit("2");
        reveal_strlit("3");
        reveal_strlit("4");
        reveal_strlit("5");
        reveal_strlit("6");
        reveal_strlit("7");
        reveal_strlit("8");
        reveal_strlit("9");
    }
    r
}

/// Render a non-negative integer in canonical decimal.
pub fn format_u32(n: u32) -> (r: String)
    ensures
        r@ == spec_udec(n as nat),
    decreases n,
{
    if n < 10 {
        let s = digit_str(n);
        let r = String::from_str(s);
        assert(r@ =~= spec_udec(n as nat));
        r
    } else {
        let mut r = format_u32(n / 10);
        r.append(digit_str(n % 10));
        assert(r@ =~= spec_udec(n as nat));
        r
    }
}

/// Render a signed integer in canonical decimal.
pub fn format_i32(x: i32) -> (r: String)
    ensures
        r@ == spec_idec(x as int),
{
    if x < 0 {
        let mag = (-(x as i64)) as u32;
        let mut r = String::from_str("-");
        let digits = format_u32(mag);
        r.append(digits.as_str());
        proof {
            reveal_strlit("-");
        }
        assert(r@ =~= spec_idec(x as int));
        r
    } else {
        let r = format_u32(x as u32);
        assert(r@ =~= spec_idec(x as int));
        r
    }
}

/// Render a value kept in hundredths with exactly two decimal places.
pub fn format_fixed2(c: i32) -> (r: String)
    requires
        c >= 0,
    ensures
        r@ == spec_fixed2(c as int),
{
    let mut r = format_u32((c / 100) as u32);
    r.append(".");
    let tens = ((c / 10) % 10) as u32;
    let ones = (c % 10) as u32;
    r.append(digit_str(tens));
    r.append(digit_str(ones));
    proof {
        reveal_strlit(".");
    }
    assert(r@ =~= spec_fixed2(c as int));
    r
}

} // verus!
