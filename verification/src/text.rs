//! Character-level helpers shared by the dialogs and the display renderer:
//! decimal rendering of integers, parsing of non-negative integers from
//! free-text replies, and the case-insensitive scan for the negative
//! acknowledgement token that ends a dialog.

use vstd::prelude::*;

verus! {

/// The character for one decimal digit.
pub open spec fn digit_char(d: int) -> char
    recommends
        0 <= d < 10,
{
    if d == 0 {
        '0'
    } else if d == 1 {
        '1'
    } else if d == 2 {
        '2'
    } else if d == 3 {
        '3'
    } else if d == 4 {
        '4'
    } else if d == 5 {
        '5'
    } else if d == 6 {
        '6'
    } else if d == 7 {
        '7'
    } else if d == 8 {
        '8'
    } else {
        '9'
    }
}

/// The decimal rendering of a non-negative integer, without a sign and
/// without leading zeros (a single zero renders as "0").
pub open spec fn dec_digits(n: int) -> Seq<char>
    recommends
        n >= 0,
    decreases n,
{
    if n < 10 {
        seq![digit_char(n)]
    } else {
        dec_digits(n / 10).push(digit_char(n % 10))
    }
}

/// The decimal rendering of a possibly negative integer.
pub open spec fn dec_signed(n: int) -> Seq<char> {
    if n >= 0 {
        dec_digits(n)
    } else {
        seq!['-'] + dec_digits(-n)
    }
}

/// A one-character string slice for the digit `d`.
fn digit_str(d: u128) -> (s: &'static str)
    requires
        d < 10,
    ensures
        s@ == seq![digit_char(d as int)],
{
    proof {
        reveal_strlit("0");
        reveal_strlit("1");
        reveal_strlit("2");
        reveal_strlit("3");
        reveal_strlit("4");
        reveal_strlit("5");
        reveal_strlit("6");
        reveal_strlit("7");
        reveal_strlit("8");
        reveal_strlit("9");
    }
    let s: &'static str = if d == 0 {
        "0"
    } else if d == 1 {
        "1"
    } else if d == 2 {
        "2"
    } else if d == 3 {
        "3"
    } else if d == 4 {
        "4"
    } else if d == 5 {
        "5"
    } else if d == 6 {
        "6"
    } else if d == 7 {
        "7"
    } else if d == 8 {
        "8"
    } else {
        "9"
    };
    proof {
        assert(s@ =~= seq![digit_char(d as int)]);
    }
    s
}

/// Renders `n` in decimal.
pub fn dec_string(n: u128) -> (s: String)
    ensures
        s@ == dec_digits(n as int),
    decreases n,
{
    if n < 10 {
        String::from_str(digit_str(n))
    } else {
        let mut s = dec_string(n / 10);
        s.append(digit_str(n % 10));
        proof {
            assert(s@ =~= dec_digits(n as int));
        }
        s
    }
}

/// Renders a signed 64-bit integer in decimal.
pub fn dec_string_i64(n: i64) -> (s: String)
    ensures
        s@ == dec_signed(n as int),
{
    if n >= 0 {
        dec_string(n as u128)
    } else {
        let mut s = String::from_str("-");
        let wide: i128 = n as i128;
        let mag: u128 = (-wide) as u128;
        let digits = dec_string(mag);
        s.append(digits.as_str());
        proof {
            reveal_strlit("-");
            assert("-"@ =~= seq!['-']);
            assert(s@ =~= dec_signed(n as int));
        }
        s
    }
}

/// ASCII whitespace, as trimmed from the ends of a free-text reply.
pub open spec fn is_ws(c: char) -> bool {
    c == ' ' || c == '\t' || c == '\n' || c == '\r'
}

/// A decimal digit character.
pub open spec fn is_digit(c: char) -> bool {
    c == '0' || c == '1' || c == '2' || c == '3' || c == '4' || c == '5' || c == '6' || c == '7'
        || c == '8' || c == '9'
}

/// The value of a digit character; zero for anything else.
pub open spec fn digit_val(c: char) -> int {
    if c == '1' {
        1
    } else if c == '2' {
        2
    } else if c == '3' {
        3
    } else if c == '4' {
        4
    } else if c == '5' {
        5
    } else if c == '6' {
        6
    } else if c == '7' {
        7
    } else if c == '8' {
        8
    } else if c == '9' {
        9
    } else {
        0
    }
}

/// The value of a digit sequence read most-significant first.
pub open spec fn digits_val(s: Seq<char>) -> int
    decreases s.len(),
{
    if s.len() == 0 {
        0
    } else {
        digits_val(s.drop_last()) * 10 + digit_val(s.last())
    }
}

/// Every character is a decimal digit.
pub open spec fn all_digits(s: Seq<char>) -> bool {
    forall|i: int| 0 <= i < s.len() ==> is_digit(#[trigger] s[i])
}

/// `s` without leading ASCII whitespace.
pub open spec fn trim_front(s: Seq<char>) -> Seq<char>
    decreases s.len(),
{
    if s.len() > 0 && is_ws(s.first()) {
        trim_front(s.drop_first())
    } else {
        s
    }
}

/// `s` without trailing ASCII whitespace.
pub open spec fn trim_back(s: Seq<char>) -> Seq<char>
    decreases s.len(),
{
    if s.len() > 0 && is_ws(s.last()) {
        trim_back(s.drop_last())
    } else {
        s
    }
}

/// `s` without leading or trailing ASCII whitespace.
pub open spec fn spec_trim(s: Seq<char>) -> Seq<char> {
    trim_back(trim_front(s))
}

/// What a free-text reply means as a capacity: the reply trimmed of ASCII
/// whitespace must be a non-empty run of decimal digits whose value fits in
/// a `u32`.
pub open spec fn spec_parse_u32(s: Seq<char>) -> Option<u32> {
    let t = spec_trim(s);
    if t.len() > 0 && all_digits(t) && digits_val(t) <= u32::MAX {
        Some(digits_val(t) as u32)
    } else {
        None
    }
}

/// The two-character negative-acknowledgement token starts at `i`,
/// compared without regard to ASCII case.
pub open spec fn is_no_at(s: Seq<char>, i: int) -> bool
    recommends
        0 <= i && i + 1 < s.len(),
{
    (s[i] == 'n' || s[i] == 'N') && (s[i + 1] == 'o' || s[i + 1] == 'O')
}

/// The reply contains the negative-acknowledgement token somewhere.
pub open spec fn contains_negative(s: Seq<char>) -> bool {
    exists|i: int| 0 <= i && i + 1 < s.len() && #[trigger] is_no_at(s, i)
}

/// Scans a reply for the negative-acknowledgement token.
pub fn has_negative(s: &str) -> (r: bool)
    ensures
        r == contains_negative(s@),
{
    let n = s.unicode_len();
    if n < 2 {
        return false;
    }
    let mut i: usize = 0;
    while i + 1 < n
        invariant
            n == s@.len(),
            2 <= n,
            i < n,
            forall|j: int| 0 <= j < i ==> !#[trigger] is_no_at(s@, j),
        decreases n - i,
    {
        let c1 = s.get_char(i);
        let c2 = s.get_char(i + 1);
        if (c1 == 'n' || c1 == 'N') && (c2 == 'o' || c2 == 'O') {
            proof {
                assert(is_no_at(s@, i as int));
            }
            return true;
        }
        i += 1;
    }
    false
}

proof fn lemma_digits_val_nonneg(s: Seq<char>)
    ensures
        digits_val(s) >= 0,
    decreases s.len(),
{
    if s.len() > 0 {
        lemma_digits_val_nonneg(s.drop_last());
    }
}

/// The value of a digit run only grows as the run is extended.
proof fn lemma_digits_val_prefix(s: Seq<char>, m: int)
    requires
        0 <= m <= s.len(),
    ensures
        digits_val(s.take(m)) <= digits_val(s),
    decreases s.len(),
{
    if m == s.len() {
        assert(s.take(m) =~= s);
    } else {
        let d = s.drop_last();
        assert(d.take(m) =~= s.take(m));
        lemma_digits_val_prefix(d, m);
        lemma_digits_val_nonneg(d);
    }
}

/// Leading whitespace drops as a subrange: if the first `k` characters are
/// whitespace and the next one (if any) is not, trimming the front keeps
/// exactly the rest.
proof fn lemma_trim_front_at(s: Seq<char>, k: int)
    requires
        0 <= k <= s.len(),
        forall|j: int| 0 <= j < k ==> is_ws(#[trigger] s[j]),
        k < s.len() ==> !is_ws(s[k]),
    ensures
        trim_front(s) =~= s.subrange(k, s.len() as int),
    decreases k,
{
    if k == 0 {
        if s.len() > 0 {
            assert(!is_ws(s.first()));
        }
        assert(trim_front(s) == s);
        assert(s =~= s.subrange(0, s.len() as int));
    } else {
        let d = s.drop_first();
        assert(is_ws(s.first()));
        assert(forall|j: int| 0 <= j < k - 1 ==> is_ws(#[trigger] d[j]));
        lemma_trim_front_at(d, k - 1);
        assert(d.subrange(k - 1, d.len() as int) =~= s.subrange(k, s.len() as int));
    }
}

/// Trailing whitespace drops as a subrange, symmetrically.
proof fn lemma_trim_back_at(s: Seq<char>, k: int)
    requires
        0 <= k <= s.len(),
        forall|j: int| k <= j < s.len() ==> is_ws(#[trigger] s[j]),
        k > 0 ==> !is_ws(s[k - 1]),
    ensures
        trim_back(s) =~= s.subrange(0, k),
    decreases s.len() - k,
{
    if k == s.len() {
        if s.len() > 0 {
            assert(!is_ws(s.last()));
            assert(trim_back(s) == s);
        }
        assert(trim_back(s) =~= s.subrange(0, k));
    } else {
        let d = s.drop_last();
        assert(is_ws(s.last()));
        assert(forall|j: int| k <= j < d.len() ==> is_ws(#[trigger] d[j]));
        lemma_trim_back_at(d, k);
        assert(d.subrange(0, k) =~= s.subrange(0, k));
    }
}

/// Parses a free-text reply as a non-negative integer, per
/// `spec_parse_u32`.
pub fn parse_u32(s: &str) -> (r: Option<u32>)
    ensures
        r == spec_parse_u32(s@),
{
    let n = s.unicode_len();
    // Find the first non-whitespace character.
    let mut start: usize = 0;
    loop
        invariant
            n == s@.len(),
            start <= n,
            forall|j: int| 0 <= j < start ==> is_ws(#[trigger] s@[j]),
        ensures
            start <= n,
            forall|j: int| 0 <= j < start ==> is_ws(#[trigger] s@[j]),
            start < n ==> !is_ws(s@[start as int]),
        decreases n - start,
    {
        if start == n {
            break;
        }
        if !is_ws_exec(s.get_char(start)) {
            break;
        }
        start += 1;
    }
    if start == n {
        // Entirely whitespace: the trimmed reply is empty.
        proof {
            lemma_trim_front_at(s@, n as int);
            assert(trim_front(s@) =~= Seq::<char>::empty());
            assert(spec_trim(s@).len() == 0);
        }
        return None;
    }
    // Find the end of the last non-whitespace character.
    let mut end: usize = n;
    loop
        invariant
            n == s@.len(),
            start < end <= n,
            !is_ws(s@[start as int]),
            forall|j: int| end <= j < n ==> is_ws(#[trigger] s@[j]),
        ensures
            start < end <= n,
            forall|j: int| end <= j < n ==> is_ws(#[trigger] s@[j]),
            !is_ws(s@[end - 1]),
        decreases end,
    {
        if !is_ws_exec(s.get_char(end - 1)) {
            break;
        }
        // The character at `start` is not whitespace, so the scan stops
        // before stepping past it.
        proof {
            assert(end - 1 > start);
        }
        end -= 1;
    }
    proof {
        lemma_trim_front_at(s@, start as int);
        let f = s@.subrange(start as int, n as int);
        assert(forall|j: int| end - start <= j < f.len() ==> is_ws(#[trigger] f[j]));
        lemma_trim_back_at(f, end - start);
        assert(spec_trim(s@) =~= s@.subrange(start as int, end as int));
    }
    let ghost t = spec_trim(s@);
    // Accumulate the digits of the trimmed region.
    let mut acc: u64 = 0;
    let mut i: usize = start;
    while i < end
        invariant
            n == s@.len(),
            start <= i <= end <= n,
            t == spec_trim(s@),
            t =~= s@.subrange(start as int, end as int),
            forall|j: int| start <= j < i ==> is_digit(#[trigger] s@[j]),
            acc <= u32::MAX,
            acc == digits_val(s@.subrange(start as int, i as int)),
        decreases end - i,
    {
        let c = s.get_char(i);
        let d: u64 = if c == '0' {
            0
        } else if c == '1' {
            1
        } else if c == '2' {
            2
        } else if c == '3' {
            3
        } else if c == '4' {
            4
        } else if c == '5' {
            5
        } else if c == '6' {
            6
        } else if c == '7' {
            7
        } else if c == '8' {
            8
        } else if c == '9' {
            9
        } else {
            // A non-digit inside the trimmed region: the reply is not a
            // number.
            proof {
                assert(t[i - start] == s@[i as int]);
                assert(!all_digits(t));
            }
            return None;
        };
        proof {
            assert(is_digit(s@[i as int]) && d == digit_val(s@[i as int]));
            let p = s@.subrange(start as int, i + 1);
            assert(p.drop_last() =~= s@.subrange(start as int, i as int));
            assert(p.last() == s@[i as int]);
        }
        acc = acc * 10 + d;
        i += 1;
        if acc > u32::MAX as u64 {
            // The prefix already exceeds the range, so the whole run does.
            proof {
                assert(t.take(i - start) =~= s@.subrange(start as int, i as int));
                lemma_digits_val_prefix(t, i - start);
            }
            return None;
        }
    }
    proof {
        assert(s@.subrange(start as int, end as int) =~= t);
        assert(acc == digits_val(t));
        assert(forall|j: int| 0 <= j < t.len() ==> is_digit(#[trigger] t[j]));
        assert(t.len() > 0);
    }
    Some(acc as u32)
}

/// ASCII whitespace test on one character.
fn is_ws_exec(c: char) -> (r: bool)
    ensures
        r == is_ws(c),
{
    c == ' ' || c == '\t' || c == '\n' || c == '\r'
}

} // verus!
