//! Decimal rendering of fixed-point numbers for alert messages, and the byte
//! scanning used by the samplers' parsers.
use vstd::prelude::*;

verus! {

pub open spec fn digit_char(d: int) -> char {
    seq!['0', '1', '2', '3', '4', '5', '6', '7', '8', '9'][d]
}

/// Decimal digits of a natural number, most significant first.
pub open spec fn digits_text(n: nat) -> Seq<char>
    decreases n,
{
    if n < 10 {
        seq![digit_char(n as int)]
    } else {
        digits_text(n / 10).push(digit_char((n % 10) as int))
    }
}

/// Decimal text of an integer, with a leading `-` when it is negative.
pub open spec fn decimal_text(n: int) -> Seq<char> {
    if n < 0 {
        seq!['-'] + digits_text((-n) as nat)
    } else {
        digits_text(n as nat)
    }
}

/// `m / unit` rounded to the nearest integer, halves away from zero.
pub open spec fn rounded(m: int, unit: int) -> int {
    if m >= 0 {
        m / unit + if m % unit >= unit / 2 { 1int } else { 0int }
    } else {
        -((-m) / unit + if (-m) % unit >= unit / 2 { 1int } else { 0int })
    }
}

/// A thousandths value as a whole number.
pub open spec fn whole_text(m: int) -> Seq<char> {
    decimal_text(rounded(m, 1000))
}

/// Two decimal digits of a number below 100, with a leading zero.
pub open spec fn two_digits(n: nat) -> Seq<char> {
    if n < 10 {
        seq!['0'] + digits_text(n)
    } else {
        digits_text(n)
    }
}

/// A thousandths value with two decimals.
pub open spec fn centi_text(m: int) -> Seq<char> {
    let c = rounded(m, 10);
    let a = if c < 0 { -c } else { c };
    (if c < 0 { seq!['-'] } else { Seq::<char>::empty() }) + digits_text((a / 100) as nat) + seq!['.']
        + two_digits((a % 100) as nat)
}

fn digit_str(d: u8) -> (r: &'static str)
    requires
        d < 10,
    ensures
        r@ == seq![digit_char(d as int)],
{
    proof {
        reveal_strlit("0");
        reveal_strlit("1");
        reveal_strlit("2");
        reveal_strlit("3");
        reveal_strlit("4");
        reveal_strlit("5");
        reveal_strlit("6");
        reveal_strlit("7");
        reveal_strlit("8");
        reveal_strlit("9");
    }
    let r = match d {
        0 => "0",
        1 => "1",
        2 => "2",
        3 => "3",
        4 => "4",
        5 => "5",
        6 => "6",
        7 => "7",
        8 => "8",
        _ => "9",
    };
    assert(r@ =~= seq![digit_char(d as int)]);
    r
}

fn digits_string(n: u128) -> (r: String)
    ensures
        r@ == digits_text(n as nat),
    decreases n,
{
    if n < 10 {
        String::from_str(digit_str(n as u8))
    } else {
        let mut s = digits_string(n / 10);
        s.append(digit_str((n % 10) as u8));
        assert(s@ =~= digits_text(n as nat));
        s
    }
}

/// The decimal digits of `n`, with a leading `-` when it is negative.
pub(crate) fn int_text(n: i128) -> (r: String)
    ensures
        r@ == decimal_text(n as int),
{
    if n < 0 {
        let magnitude: u128 = (-(n + 1)) as u128 + 1;
        let mut s = String::from_str("-");
        let digits = digits_string(magnitude);
        s.append(digits.as_str());
        proof {
            reveal_strlit("-");
        }
        assert(s@ =~= decimal_text(n as int));
        s
    } else {
        digits_string(n as u128)
    }
}

fn rounded_exec(m: i128, unit: i128) -> (r: i128)
    requires
        m > i128::MIN,
        unit == 10 || unit == 1000,
    ensures
        r == rounded(m as int, unit as int),
{
    if m >= 0 {
        let q = m / unit;
        if m % unit >= unit / 2 { q + 1 } else { q }
    } else {
        let a = -m;
        let q = a / unit;
        if a % unit >= unit / 2 { -(q + 1) } else { -q }
    }
}

/// Renders a thousandths value as a whole number.
pub fn whole_string(m: i128) -> (r: String)
    requires
        m > i128::MIN,
    ensures
        r@ == whole_text(m as int),
{
    int_text(rounded_exec(m, 1000))
}

/// Renders a thousandths value with two decimals.
pub fn centi_string(m: i128) -> (r: String)
    requires
        m > i128::MIN,
    ensures
        r@ == centi_text(m as int),
{
    let c = rounded_exec(m, 10);
    let a = if c < 0 { -c } else { c };
    let mut out = if c < 0 { String::from_str("-") } else { String::new() };
    let whole = int_text(a / 100);
    out.append(whole.as_str());
    out.append(".");
    let frac = a % 100;
    if frac < 10 {
        out.append("0");
    }
    let tail = int_text(frac);
    out.append(tail.as_str());
    proof {
        reveal_strlit("-");
        reveal_strlit(".");
        reveal_strlit("0");
        assert(out@ =~= centi_text(m as int));
    }
    out
}

} // verus!

verus! {

/// ASCII whitespace as `split_whitespace` and `trim` treat it.
pub open spec fn is_space(b: u8) -> bool {
    b == 32 || b == 9 || b == 10 || b == 11 || b == 12 || b == 13
}

pub open spec fn is_digit(b: u8) -> bool {
    48 <= b <= 57
}

/// End of the token that starts at `i`: the first space at or after `i`,
/// or `end`.
pub open spec fn token_end(s: Seq<u8>, i: int, end: int) -> int
    decreases end - i,
{
    if i >= end || is_space(s[i]) {
        i
    } else {
        token_end(s, i + 1, end)
    }
}

/// The maximal runs of non-space bytes in `s[i..end]`, as (start, end)
/// positions in `s`.
pub open spec fn tokens_from(s: Seq<u8>, i: int, end: int) -> Seq<(int, int)>
    decreases end - i, 1int,
{
    if i >= end {
        Seq::empty()
    } else if is_space(s[i]) {
        tokens_from(s, i + 1, end)
    } else {
        let j = token_end(s, i + 1, end);
        if j <= i || j > end {
            Seq::empty()
        } else {
            seq![(i, j)] + tokens_from(s, j, end)
        }
    }
}

/// End of the line that starts at `i`: the first newline at or after `i`,
/// or the end of `s`.
pub open spec fn line_end(s: Seq<u8>, i: int) -> int
    decreases s.len() - i,
{
    if i >= s.len() || s[i] == 10 {
        i
    } else {
        line_end(s, i + 1)
    }
}

/// The lines of `s` from position `i`, without their newline; a final
/// newline does not start another line.
pub open spec fn lines_from(s: Seq<u8>, i: int) -> Seq<(int, int)>
    decreases s.len() + 1 - i,
{
    if i >= s.len() || i < 0 {
        Seq::empty()
    } else {
        let j = line_end(s, i);
        if j < i || j > s.len() {
            Seq::empty()
        } else {
            seq![(i, j)] + lines_from(s, j + 1)
        }
    }
}

pub open spec fn lines(s: Seq<u8>) -> Seq<(int, int)> {
    lines_from(s, 0)
}

proof fn lemma_token_end_bounds(s: Seq<u8>, i: int, end: int)
    requires
        i <= end,
    ensures
        i <= token_end(s, i, end) <= end,
    decreases end - i,
{
    if !(i >= end || is_space(s[i])) {
        lemma_token_end_bounds(s, i + 1, end);
    }
}

proof fn lemma_line_end_bounds(s: Seq<u8>, i: int)
    requires
        0 <= i <= s.len(),
    ensures
        i <= line_end(s, i) <= s.len(),
    decreases s.len() - i,
{
    if !(i >= s.len() || s[i] == 10) {
        lemma_line_end_bounds(s, i + 1);
    }
}

/// Every token of `s[i..end]` lies inside it and is not empty.
pub proof fn lemma_tokens_within(s: Seq<u8>, i: int, end: int)
    requires
        0 <= i,
        end <= s.len(),
    ensures
        forall|k: int| 0 <= k < tokens_from(s, i, end).len() ==> {
            let t = #[trigger] tokens_from(s, i, end)[k];
            i <= t.0 < t.1 <= end
        },
    decreases end - i, 1int,
{
    if i < end {
        if is_space(s[i]) {
            lemma_tokens_within(s, i + 1, end);
            assert(tokens_from(s, i, end) == tokens_from(s, i + 1, end));
        } else {
            let j = token_end(s, i + 1, end);
            lemma_token_end_bounds(s, i + 1, end);
            lemma_tokens_within(s, j, end);
            let ts = tokens_from(s, i, end);
            assert forall|k: int| 0 <= k < ts.len() implies {
                let t = #[trigger] ts[k];
                i <= t.0 < t.1 <= end
            } by {
                if k > 0 {
                    assert(ts[k] == tokens_from(s, j, end)[k - 1]);
                }
            }
        }
    }
}

/// Every line of `s` from `i` lies inside `s`.
pub proof fn lemma_lines_within(s: Seq<u8>, i: int)
    requires
        0 <= i,
    ensures
        forall|k: int| 0 <= k < lines_from(s, i).len() ==> {
            let l = #[trigger] lines_from(s, i)[k];
            i <= l.0 <= l.1 <= s.len()
        },
    decreases s.len() + 1 - i,
{
    if i < s.len() {
        let j = line_end(s, i);
        lemma_line_end_bounds(s, i);
        lemma_lines_within(s, j + 1);
        let ls = lines_from(s, i);
        assert forall|k: int| 0 <= k < ls.len() implies {
            let l = #[trigger] ls[k];
            i <= l.0 <= l.1 <= s.len()
        } by {
            if k > 0 {
                assert(ls[k] == lines_from(s, j + 1)[k - 1]);
            }
        }
    }
}

/// The tokens of `s[start..end]`.
pub fn tokens(s: &[u8], start: usize, end: usize) -> (r: Vec<(usize, usize)>)
    requires
        start <= end <= s@.len(),
    ensures
        r@.len() == tokens_from(s@, start as int, end as int).len(),
        forall|k: int| 0 <= k < r@.len() ==> (#[trigger] r@[k]).0 == tokens_from(s@, start as int, end as int)[k].0
            && r@[k].1 == tokens_from(s@, start as int, end as int)[k].1,
        forall|k: int| 0 <= k < r@.len() ==> start <= (#[trigger] r@[k]).0 < r@[k].1 <= end,
{
    let ghost whole = tokens_from(s@, start as int, end as int);
    let mut out: Vec<(usize, usize)> = Vec::new();
    let mut i = start;
    proof {
        lemma_tokens_within(s@, start as int, end as int);
    }
    while i < end
        invariant
            start <= i <= end <= s@.len(),
            whole == tokens_from(s@, start as int, end as int),
            out@.len() + tokens_from(s@, i as int, end as int).len() == whole.len(),
            forall|k: int| 0 <= k < out@.len() ==> (#[trigger] out@[k]).0 == whole[k].0 && out@[k].1 == whole[k].1,
            forall|k: int| 0 <= k < tokens_from(s@, i as int, end as int).len()
                ==> #[trigger] tokens_from(s@, i as int, end as int)[k] == whole[out@.len() + k],
            forall|k: int| 0 <= k < whole.len() ==> start <= (#[trigger] whole[k]).0 < whole[k].1 <= end,
        decreases end - i,
    {
        if is_space_exec(s[i]) {
            i = i + 1;
        } else {
            let mut j = i + 1;
            while j < end && !is_space_exec(s[j])
                invariant
                    i < j <= end <= s@.len(),
                    token_end(s@, i as int + 1, end as int) == token_end(s@, j as int, end as int),
                decreases end - j,
            {
                j = j + 1;
            }
            let ghost rest = tokens_from(s@, j as int, end as int);
            assert(tokens_from(s@, i as int, end as int) == seq![(i as int, j as int)] + rest);
            assert forall|k: int| 0 <= k < rest.len() implies #[trigger] rest[k] == whole[out@.len() + 1 + k] by {
                assert(tokens_from(s@, i as int, end as int)[k + 1] == rest[k]);
            }
            assert(tokens_from(s@, i as int, end as int)[0] == (i as int, j as int));
            out.push((i, j));
            i = j;
        }
    }
    out
}

pub fn is_space_exec(b: u8) -> (r: bool)
    ensures
        r == is_space(b),
{
    b == 32 || b == 9 || b == 10 || b == 11 || b == 12 || b == 13
}

/// The lines of `s`, as (start, end) positions.
pub fn split_lines(s: &[u8]) -> (r: Vec<(usize, usize)>)
    ensures
        r@.len() == lines(s@).len(),
        forall|k: int| 0 <= k < r@.len() ==> (#[trigger] r@[k]).0 == lines(s@)[k].0
            && r@[k].1 == lines(s@)[k].1,
        forall|k: int| 0 <= k < r@.len() ==> (#[trigger] r@[k]).0 <= r@[k].1 <= s@.len(),
{
    let ghost whole = lines(s@);
    let mut out: Vec<(usize, usize)> = Vec::new();
    let mut i: usize = 0;
    proof {
        lemma_lines_within(s@, 0);
    }
    while i < s.len()
        invariant
            i <= s@.len(),
            whole == lines(s@),
            out@.len() + lines_from(s@, i as int).len() == whole.len(),
            forall|k: int| 0 <= k < out@.len() ==> (#[trigger] out@[k]).0 == whole[k].0 && out@[k].1 == whole[k].1,
            forall|k: int| 0 <= k < lines_from(s@, i as int).len()
                ==> #[trigger] lines_from(s@, i as int)[k] == whole[out@.len() + k],
            forall|k: int| 0 <= k < whole.len() ==> 0 <= (#[trigger] whole[k]).0 <= whole[k].1 <= s@.len(),
        decreases s@.len() - i,
    {
        let mut j = i;
        while j < s.len() && s[j] != 10
            invariant
                i <= j <= s@.len(),
                line_end(s@, i as int) == line_end(s@, j as int),
            decreases s@.len() - j,
        {
            j = j + 1;
        }
        let ghost rest = lines_from(s@, j as int + 1);
        assert(lines_from(s@, i as int) == seq![(i as int, j as int)] + rest);
        assert forall|k: int| 0 <= k < rest.len() implies #[trigger] rest[k] == whole[out@.len() + 1 + k] by {
            assert(lines_from(s@, i as int)[k + 1] == rest[k]);
        }
        assert(lines_from(s@, i as int)[0] == (i as int, j as int));
        out.push((i, j));
        if j == s.len() {
            assert(lines_from(s@, j as int + 1).len() == 0);
            i = j;
        } else {
            i = j + 1;
        }
    }
    out
}

} // verus!

verus! {

/// Value of a run of decimal digits.
pub open spec fn digits_value(t: Seq<u8>) -> int
    decreases t.len(),
{
    if t.len() == 0 {
        0
    } else {
        digits_value(t.drop_last()) * 10 + (t.last() as int - 48)
    }
}

pub open spec fn all_digits(t: Seq<u8>) -> bool {
    forall|i: int| 0 <= i < t.len() ==> is_digit(#[trigger] t[i])
}

/// One or more digits whose value fits a `u64`.
pub open spec fn digits_u64(t: Seq<u8>) -> Option<u64> {
    if t.len() > 0 && all_digits(t) && digits_value(t) <= u64::MAX {
        Some(digits_value(t) as u64)
    } else {
        None
    }
}

/// `t` without one leading `+`.
pub open spec fn unsigned_part(t: Seq<u8>) -> Seq<u8> {
    if t.len() > 0 && t[0] == 43 {
        t.drop_first()
    } else {
        t
    }
}

/// What `str::parse::<u64>` accepts: an optional `+`, then digits.
pub open spec fn parse_u64_spec(t: Seq<u8>) -> Option<u64> {
    digits_u64(unsigned_part(t))
}

/// What `str::parse::<i32>` accepts: an optional sign, then digits, within
/// the range of `i32`.
pub open spec fn parse_i32_spec(t: Seq<u8>) -> Option<i32> {
    if t.len() > 0 && t[0] == 45 {
        let d = t.drop_first();
        if d.len() > 0 && all_digits(d) && digits_value(d) <= 0x8000_0000 {
            Some((-digits_value(d)) as i32)
        } else {
            None
        }
    } else {
        let d = unsigned_part(t);
        if d.len() > 0 && all_digits(d) && digits_value(d) <= i32::MAX {
            Some(digits_value(d) as i32)
        } else {
            None
        }
    }
}

/// Position of the first `.` in `t` at or after `i`, or `t.len()`.
pub open spec fn dot_index(t: Seq<u8>, i: int) -> int
    decreases t.len() - i,
{
    if i >= t.len() || t[i] == 46 {
        i
    } else {
        dot_index(t, i + 1)
    }
}

/// Thousandths given by the first three digits after the point.
pub open spec fn frac_milli(f: Seq<u8>) -> int {
    if f.len() >= 3 {
        digits_value(f.subrange(0, 3))
    } else if f.len() == 2 {
        digits_value(f) * 10
    } else if f.len() == 1 {
        digits_value(f) * 100
    } else {
        0
    }
}

/// A non-negative decimal number (an optional `+`, digits, an optional point
/// and more digits, at least one digit in all) in thousandths, truncated.
pub open spec fn parse_milli_spec(t: Seq<u8>) -> Option<i64> {
    let u = unsigned_part(t);
    let d = dot_index(u, 0);
    let ip = u.subrange(0, d);
    let fp = if d < u.len() { u.subrange(d + 1, u.len() as int) } else { Seq::empty() };
    if ip.len() + fp.len() > 0 && all_digits(ip) && all_digits(fp)
        && digits_value(ip) * 1000 + frac_milli(fp) <= i64::MAX {
        Some((digits_value(ip) * 1000 + frac_milli(fp)) as i64)
    } else {
        None
    }
}

proof fn lemma_digits_nonneg(t: Seq<u8>)
    requires
        all_digits(t),
    ensures
        digits_value(t) >= 0,
    decreases t.len(),
{
    if t.len() > 0 {
        lemma_digits_nonneg(t.drop_last());
    }
}

proof fn lemma_digits_prefix(t: Seq<u8>, k: int)
    requires
        all_digits(t),
        0 <= k <= t.len(),
    ensures
        digits_value(t.subrange(0, k)) <= digits_value(t),
    decreases t.len(),
{
    if k < t.len() {
        let d = t.drop_last();
        assert(all_digits(d));
        lemma_digits_prefix(d, k);
        assert(d.subrange(0, k) =~= t.subrange(0, k));
        lemma_digits_nonneg(d);
    } else {
        assert(t.subrange(0, k) =~= t);
    }
}

/// Value of the digits `s[a..b]`: `None` unless there is at least one, all
/// are digits and the value fits a `u64`.
pub fn parse_digits(s: &[u8], a: usize, b: usize) -> (r: Option<u64>)
    requires
        a <= b <= s@.len(),
    ensures
        r == digits_u64(s@.subrange(a as int, b as int)),
        r matches Some(v) ==> v as int == digits_value(s@.subrange(a as int, b as int)),
{
    let ghost t = s@.subrange(a as int, b as int);
    if a == b {
        return None;
    }
    let mut acc: u64 = 0;
    let mut k = a;
    while k < b
        invariant
            a <= k <= b <= s@.len(),
            t == s@.subrange(a as int, b as int),
            all_digits(s@.subrange(a as int, k as int)),
            acc == digits_value(s@.subrange(a as int, k as int)),
        decreases b - k,
    {
        let c = s[k];
        if !(c >= 48 && c <= 57) {
            assert(t[k - a] == c);
            return None;
        }
        let ghost before = s@.subrange(a as int, k as int);
        let next: u128 = acc as u128 * 10 + (c - 48) as u128;
        assert(s@.subrange(a as int, k + 1).drop_last() =~= before);
        assert(all_digits(s@.subrange(a as int, k + 1)));
        if next > u64::MAX as u128 {
            proof {
                if all_digits(t) {
                    assert(t.subrange(0, k + 1 - a) =~= s@.subrange(a as int, k + 1));
                    lemma_digits_prefix(t, k + 1 - a);
                }
            }
            return None;
        }
        acc = next as u64;
        k = k + 1;
    }
    assert(s@.subrange(a as int, k as int) =~= t);
    Some(acc)
}

/// `str::parse::<u64>` on `s[a..b]`.
pub fn parse_u64(s: &[u8], a: usize, b: usize) -> (r: Option<u64>)
    requires
        a <= b <= s@.len(),
    ensures
        r == parse_u64_spec(s@.subrange(a as int, b as int)),
        r matches Some(v) ==> v as int == digits_value(unsigned_part(s@.subrange(a as int, b as int))),
{
    if a < b && s[a] == 43 {
        assert(s@.subrange(a as int, b as int).drop_first() =~= s@.subrange(a + 1, b as int));
        parse_digits(s, a + 1, b)
    } else {
        parse_digits(s, a, b)
    }
}

/// `str::parse::<i32>` on `s[a..b]`.
pub fn parse_i32(s: &[u8], a: usize, b: usize) -> (r: Option<i32>)
    requires
        a <= b <= s@.len(),
    ensures
        r == parse_i32_spec(s@.subrange(a as int, b as int)),
{
    let ghost t = s@.subrange(a as int, b as int);
    assert(t.len() > 0 ==> t[0] == s@[a as int]);
    if a < b && s[a] == 45 {
        assert(t.drop_first() =~= s@.subrange(a + 1, b as int));
        match parse_digits(s, a + 1, b) {
            Some(v) => {
                if v <= 0x8000_0000 {
                    Some((0 - v as i64) as i32)
                } else {
                    None
                }
            },
            None => None,
        }
    } else {
        match parse_u64(s, a, b) {
            Some(v) => if v <= 0x7fff_ffff { Some(v as i32) } else { None },
            None => None,
        }
    }
}

/// Whether every byte of `s[a..b]` is a digit.
pub fn digits_only(s: &[u8], a: usize, b: usize) -> (r: bool)
    requires
        a <= b <= s@.len(),
    ensures
        r == all_digits(s@.subrange(a as int, b as int)),
{
    let mut k = a;
    while k < b
        invariant
            a <= k <= b <= s@.len(),
            all_digits(s@.subrange(a as int, k as int)),
        decreases b - k,
    {
        if !(s[k] >= 48 && s[k] <= 57) {
            assert(s@.subrange(a as int, b as int)[k - a] == s[k as int]);
            return false;
        }
        assert(all_digits(s@.subrange(a as int, k + 1)));
        k = k + 1;
    }
    assert(s@.subrange(a as int, k as int) =~= s@.subrange(a as int, b as int));
    true
}

/// A non-negative decimal number in `s[a..b]`, in thousandths.
pub fn parse_milli(s: &[u8], a: usize, b: usize) -> (r: Option<i64>)
    requires
        a <= b <= s@.len(),
    ensures
        r == parse_milli_spec(s@.subrange(a as int, b as int)),
{
    let ghost t = s@.subrange(a as int, b as int);
    let start = if a < b && s[a] == 43 { a + 1 } else { a };
    let ghost u = s@.subrange(start as int, b as int);
    assert(u =~= unsigned_part(t));
    let mut d = start;
    while d < b && s[d] != 46
        invariant
            start <= d <= b <= s@.len(),
            u == s@.subrange(start as int, b as int),
            dot_index(u, d - start) == dot_index(u, 0),
        decreases b - d,
    {
        d = d + 1;
    }
    assert(dot_index(u, d - start) == d - start);
    let frac_start = if d < b { d + 1 } else { b };
    let ghost ip = u.subrange(0, d - start);
    let ghost fp = if d < b { u.subrange(d - start + 1, u.len() as int) } else { Seq::<u8>::empty() };
    assert(ip =~= s@.subrange(start as int, d as int));
    assert(fp =~= s@.subrange(frac_start as int, b as int));
    if d == start && frac_start == b {
        return None;
    }
    if !digits_only(s, start, d) || !digits_only(s, frac_start, b) {
        return None;
    }
    let whole: u64 = if d == start {
        0
    } else {
        match parse_digits(s, start, d) {
            Some(v) => v,
            None => {
                proof {
                    lemma_frac_nonneg(fp);
                }
                return None;
            },
        }
    };
    let flen = b - frac_start;
    let frac: u64 = if flen == 0 {
        0
    } else {
        let e = if flen >= 3 { frac_start + 3 } else { b };
        proof {
            if flen >= 3 {
                assert(fp.subrange(0, 3) =~= s@.subrange(frac_start as int, e as int));
            }
        }
        let v = match parse_digits(s, frac_start, e) {
            Some(v) => v,
            None => 0,
        };
        proof {
            if flen >= 3 {
                assert(all_digits(fp.subrange(0, 3)));
                lemma_digits_bound(fp.subrange(0, 3));
            } else {
                lemma_digits_bound(fp);
            }
        }
        if flen >= 3 { v } else if flen == 2 { v * 10 } else { v * 100 }
    };
    proof {
        lemma_digits_nonneg(ip);
        if flen >= 3 {
            assert(all_digits(fp.subrange(0, 3)));
            lemma_digits_bound(fp.subrange(0, 3));
        } else if flen > 0 {
            lemma_digits_bound(fp);
        }
    }
    let total: u128 = whole as u128 * 1000 + frac as u128;
    if total > i64::MAX as u128 {
        None
    } else {
        Some(total as i64)
    }
}

proof fn lemma_frac_nonneg(f: Seq<u8>)
    requires
        all_digits(f),
    ensures
        frac_milli(f) >= 0,
{
    if f.len() >= 3 {
        assert(all_digits(f.subrange(0, 3)));
        lemma_digits_nonneg(f.subrange(0, 3));
    } else {
        lemma_digits_nonneg(f);
    }
}

proof fn lemma_digits_bound(t: Seq<u8>)
    requires
        all_digits(t),
        t.len() <= 3,
    ensures
        0 <= digits_value(t) < 1000,
        t.len() <= 2 ==> digits_value(t) < 100,
        t.len() <= 1 ==> digits_value(t) < 10,
    decreases t.len(),
{
    if t.len() > 0 {
        lemma_digits_bound(t.drop_last());
    }
}

} // verus!

verus! {

/// The text that `String::from_utf8_lossy` makes of `b`.
pub uninterp spec fn lossy_text(b: Seq<u8>) -> Seq<char>;

/// Relies on `String::from_utf8_lossy`: the text of `b`, each invalid
/// sequence replaced by U+FFFD; for valid UTF-8 that is the decoded text.
#[verifier::external_body]
pub(crate) fn text_from_bytes(b: &[u8]) -> (r: String)
    ensures
        r@ == lossy_text(b@),
        vstd::utf8::valid_utf8(b@) ==> r@ == vstd::utf8::decode_utf8(b@),
{
    String::from_utf8_lossy(b).into_owned()
}

/// `p` occurs in `w`.
pub open spec fn has_sub(w: Seq<u8>, p: Seq<u8>) -> bool {
    exists|i: int| 0 <= i && i + p.len() <= w.len() && #[trigger] w.subrange(i, i + p.len()) == p
}

/// Whether `s[i..i + p.len()]` is `p`.
fn matches_at(s: &[u8], i: usize, p: &[u8]) -> (r: bool)
    requires
        i + p@.len() <= s@.len(),
    ensures
        r == (s@.subrange(i as int, i + p@.len()) == p@),
{
    let n = s.len();
    let mut j: usize = 0;
    while j < p.len()
        invariant
            n == s@.len(),
            j <= p@.len(),
            i + p@.len() <= s@.len(),
            s@.subrange(i as int, i + j) == p@.subrange(0, j as int),
        decreases p@.len() - j,
    {
        if s[i + j] != p[j] {
            assert(s@.subrange(i as int, i + p@.len())[j as int] != p@[j as int]);
            return false;
        }
        assert(s@.subrange(i as int, i + j + 1) =~= s@.subrange(i as int, i + j).push(s@[i + j]));
        assert(p@.subrange(0, j + 1) =~= p@.subrange(0, j as int).push(p@[j as int]));
        j = j + 1;
    }
    assert(p@.subrange(0, j as int) =~= p@);
    true
}

/// Whether `p` occurs in `s[a..b]`.
pub fn contains_bytes(s: &[u8], a: usize, b: usize, p: &[u8]) -> (r: bool)
    requires
        a <= b <= s@.len(),
    ensures
        r == has_sub(s@.subrange(a as int, b as int), p@),
{
    let ghost w = s@.subrange(a as int, b as int);
    if p.len() > b - a {
        return false;
    }
    if p.len() == 0 {
        assert(w.subrange(0, 0int + p@.len()) =~= p@);
        return true;
    }
    let mut i = a;
    while i <= b - p.len()
        invariant
            a <= i <= b,
            1 <= p@.len() <= b - a,
            b <= s@.len(),
            w == s@.subrange(a as int, b as int),
            forall|k: int| 0 <= k < i - a ==> #[trigger] w.subrange(k, k + p@.len()) != p@,
        decreases b - i,
    {
        assert(w.subrange(i - a, i - a + p@.len()) =~= s@.subrange(i as int, i + p@.len()));
        if matches_at(s, i, p) {
            assert(w.subrange(i - a, i - a + p@.len()) == p@);
            return true;
        }
        i = i + 1;
    }
    false
}

} // verus!

verus! {

/// A copy of `s[a..b]`.
pub fn copy_range(s: &[u8], a: usize, b: usize) -> (r: Vec<u8>)
    requires
        a <= b <= s@.len(),
    ensures
        r@ == s@.subrange(a as int, b as int),
{
    let mut out: Vec<u8> = Vec::new();
    let mut k = a;
    while k < b
        invariant
            a <= k <= b <= s@.len(),
            out@ == s@.subrange(a as int, k as int),
        decreases b - k,
    {
        out.push(s[k]);
        k = k + 1;
        assert(out@ =~= s@.subrange(a as int, k as int));
    }
    out
}

} // verus!

verus! {

/// The bytes of an optional read.
pub open spec fn read_view(o: Option<&[u8]>) -> Option<Seq<u8>> {
    match o {
        Some(s) => Some(s@),
        None => None,
    }
}

/// The bytes of an optional owned read.
pub open spec fn owned_read_view(o: Option<Vec<u8>>) -> Option<Seq<u8>> {
    match o {
        Some(v) => Some(v@),
        None => None,
    }
}

/// Borrows an optional owned read.
pub fn borrow_read(o: &Option<Vec<u8>>) -> (r: Option<&[u8]>)
    ensures
        read_view(r) == owned_read_view(*o),
{
    match o {
        Some(v) => Some(v.as_slice()),
        None => None,
    }
}

} // verus!

verus! {

/// The lower-case text that `str::to_lowercase` makes of `s`.
pub uninterp spec fn lower_of(s: Seq<char>) -> Seq<char>;

/// Relies on `str::to_lowercase`: the lower-case form of `s`, which depends
/// on its characters alone.
#[verifier::external_body]
pub(crate) fn lowercase(s: &str) -> (r: String)
    ensures
        r@ == lower_of(s@),
{
    s.to_lowercase()
}

} // verus!
