//! Character-level text helpers shared by the parsers and formatters:
//! whitespace trimming, decimal integers (both directions) and string
//! building.

use vstd::prelude::*;
use vstd::string::*;

verus! {

// ---------------------------------------------------------------- whitespace

/// The Unicode `White_Space` property, which `char::is_whitespace` tests.
pub open spec fn is_ws(c: char) -> bool {
    let u = c as u32;
    ||| 0x9 <= u <= 0xD
    ||| u == 0x20
    ||| u == 0x85
    ||| u == 0xA0
    ||| u == 0x1680
    ||| 0x2000 <= u <= 0x200A
    ||| u == 0x2028
    ||| u == 0x2029
    ||| u == 0x202F
    ||| u == 0x205F
    ||| u == 0x3000
}

/// `s` with its leading whitespace removed.
pub open spec fn trim_start(s: Seq<char>) -> Seq<char>
    decreases s.len(),
{
    if s.len() > 0 && is_ws(s[0]) {
        trim_start(s.drop_first())
    } else {
        s
    }
}

/// `s` with its trailing whitespace removed.
pub open spec fn trim_end(s: Seq<char>) -> Seq<char>
    decreases s.len(),
{
    if s.len() > 0 && is_ws(s.last()) {
        trim_end(s.drop_last())
    } else {
        s
    }
}

/// What `str::trim` returns: both ends stripped of whitespace.
pub open spec fn trim(s: Seq<char>) -> Seq<char> {
    trim_end(trim_start(s))
}

/// At most the first `n` characters of `s` (`chars().take(n)`).
pub open spec fn take_upto(s: Seq<char>, n: int) -> Seq<char> {
    if s.len() <= n {
        s
    } else {
        s.take(n)
    }
}

/// A string that `trim` leaves unchanged.
pub open spec fn is_trimmed(s: Seq<char>) -> bool {
    s.len() == 0 || (!is_ws(s[0]) && !is_ws(s.last()))
}

pub fn is_whitespace(c: char) -> (r: bool)
    ensures
        r == is_ws(c),
{
    let u = c as u32;
    (0x9 <= u && u <= 0xD) || u == 0x20 || u == 0x85 || u == 0xA0 || u == 0x1680 || (0x2000 <= u
        && u <= 0x200A) || u == 0x2028 || u == 0x2029 || u == 0x202F || u == 0x205F || u == 0x3000
}

proof fn lemma_trim_end_len(s: Seq<char>)
    ensures
        trim_end(s).len() <= s.len(),
        trim_end(s) =~= s.subrange(0, trim_end(s).len() as int),
    decreases s.len(),
{
    if s.len() > 0 && is_ws(s.last()) {
        lemma_trim_end_len(s.drop_last());
    }
}

/// The bounds `[a, b)` inside `[lo, hi)` of `v` that `trim` keeps.
pub fn trim_range(v: &Vec<char>, lo: usize, hi: usize) -> (r: (usize, usize))
    requires
        lo <= hi <= v.len(),
    ensures
        lo <= r.0 <= r.1 <= hi,
        v@.subrange(r.0 as int, r.1 as int) == trim(v@.subrange(lo as int, hi as int)),
{
    let mut a = lo;
    while a < hi && is_whitespace(v[a])
        invariant
            lo <= a <= hi <= v.len(),
            trim_start(v@.subrange(lo as int, hi as int)) == trim_start(
                v@.subrange(a as int, hi as int),
            ),
        decreases hi - a,
    {
        assert(v@.subrange(a as int, hi as int).drop_first() =~= v@.subrange(
            a + 1,
            hi as int,
        ));
        a = a + 1;
    }
    let ghost ts = v@.subrange(a as int, hi as int);
    assert(trim_start(ts) == ts);
    let mut b = hi;
    while b > a && is_whitespace(v[b - 1])
        invariant
            lo <= a <= b <= hi <= v.len(),
            trim_end(ts) == trim_end(v@.subrange(a as int, b as int)),
            ts == v@.subrange(a as int, hi as int),
        decreases b - a,
    {
        assert(v@.subrange(a as int, b as int).drop_last() =~= v@.subrange(
            a as int,
            b - 1,
        ));
        b = b - 1;
    }
    (a, b)
}

// ---------------------------------------------------------------- decimals

pub open spec fn is_digit(c: char) -> bool {
    '0' as u32 <= c as u32 <= '9' as u32
}

pub open spec fn digit_val(c: char) -> int {
    c as u32 - '0' as u32
}

pub open spec fn digit_char(d: int) -> char {
    (d + '0' as u32) as char
}

pub open spec fn all_digits(s: Seq<char>) -> bool {
    forall|i: int| 0 <= i < s.len() ==> is_digit(#[trigger] s[i])
}

/// The number a run of decimal digits denotes.
pub open spec fn digits_value(s: Seq<char>) -> nat
    decreases s.len(),
{
    if s.len() == 0 {
        0
    } else {
        digits_value(s.drop_last()) * 10 + digit_val(s.last()) as nat
    }
}

/// Shortest decimal spelling of `n` (what `{}` prints for an unsigned integer).
pub open spec fn dec(n: nat) -> Seq<char>
    decreases n,
{
    if n < 10 {
        seq![digit_char(n as int)]
    } else {
        dec(n / 10).push(digit_char((n % 10) as int))
    }
}

/// Decimal spelling of a signed integer (what `{}` prints).
pub open spec fn int_dec(v: int) -> Seq<char> {
    if v < 0 {
        seq!['-'] + dec((-v) as nat)
    } else {
        dec(v as nat)
    }
}

/// `{:02}`: at least two digits, zero-padded on the left.
pub open spec fn pad2(n: nat) -> Seq<char> {
    if n < 10 {
        seq!['0', digit_char(n as int)]
    } else {
        dec(n)
    }
}

/// The integer that `FromStr` accepts in `s`: an optional sign followed by
/// at least one ASCII digit, nothing else.
pub open spec fn parse_int(s: Seq<char>) -> Option<int> {
    if s.len() > 0 && (s[0] == '+' || s[0] == '-') {
        let r = s.drop_first();
        if r.len() > 0 && all_digits(r) {
            Some(if s[0] == '-' { -(digits_value(r) as int) } else { digits_value(r) as int })
        } else {
            None
        }
    } else if s.len() > 0 && all_digits(s) {
        Some(digits_value(s) as int)
    } else {
        None
    }
}

/// What `s.parse::<i32>()` gives, as an `Option`.
pub open spec fn parse_i32(s: Seq<char>) -> Option<i32> {
    match parse_int(s) {
        Some(v) => if i32::MIN <= v <= i32::MAX {
            Some(v as i32)
        } else {
            None
        },
        None => None,
    }
}

/// What `s.parse::<i64>()` gives, as an `Option`.
pub open spec fn parse_i64(s: Seq<char>) -> Option<i64> {
    match parse_int(s) {
        Some(v) => if i64::MIN <= v <= i64::MAX {
            Some(v as i64)
        } else {
            None
        },
        None => None,
    }
}

proof fn lemma_digits_value_prefix(s: Seq<char>, k: int)
    requires
        0 <= k <= s.len(),
        all_digits(s),
    ensures
        digits_value(s.take(k)) <= digits_value(s),
    decreases s.len(),
{
    if k < s.len() {
        assert(s.drop_last().take(k) =~= s.take(k));
        lemma_digits_value_prefix(s.drop_last(), k);
    } else {
        assert(s.take(k) =~= s);
    }
}

pub proof fn lemma_dec_props(n: nat)
    ensures
        dec(n).len() > 0,
        all_digits(dec(n)),
        digits_value(dec(n)) == n,
        dec(n)[0] != '-' && dec(n)[0] != '+',
        !is_ws(dec(n)[0]),
        !is_ws(dec(n).last()),
        forall|i: int| 0 <= i < dec(n).len() ==> !is_ws(#[trigger] dec(n)[i]) && dec(n)[i] != '\n'
            && dec(n)[i] != '=',
    decreases n,
{
    let d = (n % 10) as int;
    assert(digit_char(d) as u32 == d + 48);
    assert(digit_val(digit_char(d)) == d);
    if n < 10 {
        assert(dec(n).drop_last() =~= Seq::<char>::empty());
        assert(digits_value(dec(n)) == digits_value(dec(n).drop_last()) * 10 + digit_val(dec(n).last()) as nat);
    }
    if n >= 10 {
        lemma_dec_props(n / 10);
        assert(dec(n).drop_last() =~= dec(n / 10));
        assert(dec(n).last() == digit_char(d));
        assert(n == (n / 10) * 10 + d);
        assert(digits_value(dec(n)) == digits_value(dec(n).drop_last()) * 10 + digit_val(dec(n).last()) as nat);
    }
}

pub proof fn lemma_parse_int_dec(v: int)
    ensures
        parse_int(int_dec(v)) == Some(v),
{
    if v < 0 {
        lemma_dec_props((-v) as nat);
        assert((seq!['-'] + dec((-v) as nat)).drop_first() =~= dec((-v) as nat));
    } else {
        lemma_dec_props(v as nat);
    }
}

pub proof fn lemma_int_dec_clean(v: int)
    ensures
        int_dec(v).len() > 0,
        is_trimmed(int_dec(v)),
        forall|i: int| 0 <= i < int_dec(v).len() ==> #[trigger] int_dec(v)[i] != '\n'
            && int_dec(v)[i] != '=',
{
    if v < 0 {
        lemma_dec_props((-v) as nat);
        let d = dec((-v) as nat);
        assert forall|i: int| 0 <= i < int_dec(v).len() implies #[trigger] int_dec(v)[i] != '\n'
            && int_dec(v)[i] != '=' by {
            if i > 0 {
                assert(int_dec(v)[i] == d[i - 1]);
            }
        }
    } else {
        lemma_dec_props(v as nat);
    }
}

fn digit_of(c: char) -> (r: Option<u32>)
    ensures
        r is Some <==> is_digit(c),
        r matches Some(d) ==> d == digit_val(c) && d < 10,
{
    let u = c as u32;
    if 48 <= u && u <= 57 {
        Some(u - 48)
    } else {
        None
    }
}

/// Parses `v[lo..hi]` as `str::parse::<i64>` does.
pub fn parse_i64_range(v: &Vec<char>, lo: usize, hi: usize) -> (r: Option<i64>)
    requires
        lo <= hi <= v.len(),
    ensures
        r == parse_i64(v@.subrange(lo as int, hi as int)),
{
    let ghost s = v@.subrange(lo as int, hi as int);
    if lo == hi {
        return None;
    }
    let neg = v[lo] == '-';
    let start = if v[lo] == '+' || v[lo] == '-' {
        lo + 1
    } else {
        lo
    };
    let ghost r = v@.subrange(start as int, hi as int);
    assert(start > lo ==> s.drop_first() =~= r);
    assert(start == lo ==> s =~= r);
    if start == hi {
        return None;
    }
    let mut acc: i128 = 0;
    let mut i = start;
    let bound: i128 = 0x8000_0000_0000_0000i128;
    while i < hi
        invariant
            lo <= start <= i <= hi <= v.len(),
            start <= lo + 1,
            r == v@.subrange(start as int, hi as int),
            all_digits(r.take(i - start)),
            acc == digits_value(r.take(i - start)),
            0 <= acc <= bound,
            bound == 0x8000_0000_0000_0000i128,
            s == v@.subrange(lo as int, hi as int),
            s.len() > 0,
            neg == (s[0] == '-'),
            start == lo ==> s == r && !(s[0] == '+' || s[0] == '-'),
            start > lo ==> s.drop_first() == r && (s[0] == '+' || s[0] == '-'),
        decreases hi - i,
    {
        let c = v[i];
        assert(r[i - start] == v@[i as int]);
        let d = match digit_of(c) {
            Some(d) => d as i128,
            None => {
                assert(!all_digits(r));
                return None;
            },
        };
        assert(r.take(i + 1 - start).drop_last() =~= r.take(i - start));
        acc = acc * 10 + d;
        i = i + 1;
        assert(all_digits(r.take(i - start)));
        if acc > bound {
            // every further digit only grows the value
            proof {
                let k = i - start;
                if all_digits(r) {
                    lemma_digits_value_prefix(r, k as int);
                }
            }
            return None;
        }
    }
    assert(r.take(hi - start) =~= r);
    if neg {
        Some((0 - acc) as i64)
    } else if acc > 0x7FFF_FFFF_FFFF_FFFFi128 {
        None
    } else {
        Some(acc as i64)
    }
}

/// Parses `v[lo..hi]` as `str::parse::<i32>` does.
pub fn parse_i32_range(v: &Vec<char>, lo: usize, hi: usize) -> (r: Option<i32>)
    requires
        lo <= hi <= v.len(),
    ensures
        r == parse_i32(v@.subrange(lo as int, hi as int)),
{
    match parse_i64_range(v, lo, hi) {
        Some(x) => if -0x8000_0000i64 <= x && x <= 0x7FFF_FFFFi64 {
            Some(x as i32)
        } else {
            None
        },
        None => {
            None
        },
    }
}

// ---------------------------------------------------------------- building

/// Appends one character to a string (`String::push`).
#[verifier::external_body]
pub(crate) fn push_char(s: &mut String, c: char)
    ensures
        final(s)@ == old(s)@.push(c),
{
    s.push(c);
}

/// Appends the decimal spelling of `n`.
pub fn push_dec(out: &mut String, n: u64)
    ensures
        final(out)@ == old(out)@ + dec(n as nat),
    decreases n,
{
    if n >= 10 {
        push_dec(out, n / 10);
    }
    let d = (n % 10) as u32 + ('0' as u32);
    let c = char_from_digit(d);
    push_char(out, c);
    proof {
        if n >= 10 {
            assert(dec(n as nat) =~= dec((n / 10) as nat).push(digit_char((n % 10) as int)));
        }
    }
}

/// Appends the decimal spelling of `v`, with a leading `-` when negative.
pub fn push_i32(out: &mut String, v: i32)
    ensures
        final(out)@ == old(out)@ + int_dec(v as int),
{
    if v < 0 {
        push_char(out, '-');
        let m = (0 - (v as i64)) as u64;
        push_dec(out, m);
        assert(final(out)@ =~= old(out)@ + int_dec(v as int));
    } else {
        push_dec(out, v as u64);
    }
}

fn char_from_digit(d: u32) -> (c: char)
    requires
        '0' as u32 <= d <= '9' as u32,
    ensures
        c == d as char,
{
    if d == 48 { '0' }
    else if d == 49 { '1' }
    else if d == 50 { '2' }
    else if d == 51 { '3' }
    else if d == 52 { '4' }
    else if d == 53 { '5' }
    else if d == 54 { '6' }
    else if d == 55 { '7' }
    else if d == 56 { '8' }
    else { '9' }
}

/// Collects the characters of `s`.
pub fn chars_of(s: &str) -> (v: Vec<char>)
    ensures
        v@ == s@,
{
    let mut v: Vec<char> = Vec::new();
    for c in it: s.chars()
        invariant
            v@ == it.seq().take(it.index() as int),
            it.seq() == s@,
    {
        v.push(c);
    }
    v
}

/// A `String` holding exactly the characters `v[lo..hi]`.
pub fn string_of_range(v: &Vec<char>, lo: usize, hi: usize) -> (s: String)
    requires
        lo <= hi <= v.len(),
    ensures
        s@ == v@.subrange(lo as int, hi as int),
{
    let mut s = String::new();
    let mut i = lo;
    while i < hi
        invariant
            lo <= i <= hi <= v.len(),
            s@ == v@.subrange(lo as int, i as int),
        decreases hi - i,
    {
        push_char(&mut s, v[i]);
        assert(v@.subrange(lo as int, i + 1) =~= v@.subrange(lo as int, i as int).push(v@[i as int]));
        i = i + 1;
    }
    s
}

} // verus!
