//! Character-level utilities shared by the URL parser and the wire codec:
//! whitespace trimming, first-occurrence search, string equality, and
//! decimal parsing and rendering of unsigned integers.

use vstd::prelude::*;

verus! {

/// ASCII whitespace; line edges and header values are trimmed of exactly
/// this set.
pub open spec fn is_ws(c: char) -> bool {
    c == ' ' || c == '\t' || c == '\r' || c == '\n' || c == '\x0b' || c == '\x0c'
}

pub fn is_ws_char(c: char) -> (r: bool)
    ensures
        r == is_ws(c),
{
    c == ' ' || c == '\t' || c == '\r' || c == '\n' || c == '\x0b' || c == '\x0c'
}

/// Index of the first non-whitespace character at or after `i`.
pub open spec fn trim_start_idx(s: Seq<char>, i: int) -> int
    decreases s.len() - i when 0 <= i <= s.len()
{
    if i >= s.len() {
        i
    } else if is_ws(s[i]) {
        trim_start_idx(s, i + 1)
    } else {
        i
    }
}

/// One past the last non-whitespace character strictly before `i`.
pub open spec fn trim_end_idx(s: Seq<char>, i: int) -> int
    decreases i when 0 <= i <= s.len()
{
    if i <= 0 {
        0
    } else if is_ws(s[i - 1]) {
        trim_end_idx(s, i - 1)
    } else {
        i
    }
}

/// The sequence with leading and trailing whitespace removed.
pub open spec fn spec_trim(s: Seq<char>) -> Seq<char> {
    let a = trim_start_idx(s, 0);
    let b = trim_end_idx(s, s.len() as int);
    if a <= b {
        s.subrange(a, b)
    } else {
        Seq::empty()
    }
}

proof fn lemma_trim_start_bounds(s: Seq<char>, i: int)
    requires
        0 <= i <= s.len(),
    ensures
        i <= trim_start_idx(s, i) <= s.len(),
    decreases s.len() - i,
{
    if i < s.len() && is_ws(s[i]) {
        lemma_trim_start_bounds(s, i + 1);
    }
}

proof fn lemma_trim_end_bounds(s: Seq<char>, i: int)
    requires
        0 <= i <= s.len(),
    ensures
        0 <= trim_end_idx(s, i) <= i,
    decreases i,
{
    if i > 0 && is_ws(s[i - 1]) {
        lemma_trim_end_bounds(s, i - 1);
    }
}

/// Trims leading and trailing whitespace, as `spec_trim` describes.
pub fn trim_str(s: &str) -> (r: String)
    ensures
        r@ == spec_trim(s@),
{
    let n: usize = s.unicode_len();
    proof {
        lemma_trim_start_bounds(s@, 0);
        lemma_trim_end_bounds(s@, n as int);
    }
    let mut a: usize = 0;
    while a < n && is_ws_char(s.get_char(a))
        invariant
            0 <= a <= n,
            n == s@.len(),
            trim_start_idx(s@, 0) == trim_start_idx(s@, a as int),
        decreases n - a,
    {
        a = a + 1;
    }
    assert(trim_start_idx(s@, a as int) == a);
    let mut b: usize = n;
    while b > 0 && is_ws_char(s.get_char(b - 1))
        invariant
            0 <= b <= n,
            n == s@.len(),
            trim_end_idx(s@, n as int) == trim_end_idx(s@, b as int),
        decreases b,
    {
        b = b - 1;
    }
    assert(trim_end_idx(s@, b as int) == b);
    if a <= b {
        let sub = s.substring_char(a, b);
        sub.to_owned()
    } else {
        String::new()
    }
}

/// First index `>= from` where `c` occurs, if any.
pub open spec fn find_char_from(s: Seq<char>, c: char, from: int) -> Option<int>
    decreases s.len() - from when 0 <= from
{
    if from >= s.len() {
        None
    } else if s[from] == c {
        Some(from)
    } else {
        find_char_from(s, c, from + 1)
    }
}

pub proof fn lemma_find_char_from(s: Seq<char>, c: char, from: int)
    requires
        0 <= from <= s.len(),
    ensures
        match find_char_from(s, c, from) {
            Some(i) => from <= i < s.len() && s[i] == c && forall|j: int|
                from <= j < i ==> s[j] != c,
            None => forall|j: int| from <= j < s.len() ==> s[j] != c,
        },
    decreases s.len() - from,
{
    if from < s.len() && s[from] != c {
        lemma_find_char_from(s, c, from + 1);
    }
}

pub fn find_char(s: &str, c: char, from: usize) -> (r: Option<usize>)
    requires
        from <= s@.len(),
    ensures
        match r {
            Some(i) => find_char_from(s@, c, from as int) == Some(i as int),
            None => find_char_from(s@, c, from as int) is None,
        },
{
    let n: usize = s.unicode_len();
    let mut i: usize = from;
    while i < n
        invariant
            from <= i <= n,
            n == s@.len(),
            find_char_from(s@, c, from as int) == find_char_from(s@, c, i as int),
        decreases n - i,
    {
        if s.get_char(i) == c {
            return Some(i);
        }
        i = i + 1;
    }
    None
}

/// Where `c` first occurs is where the search finds it.
pub proof fn lemma_find_char_from_first(s: Seq<char>, c: char, from: int, k: int)
    requires
        0 <= from <= k < s.len(),
        s[k] == c,
        forall|j: int| from <= j < k ==> s[j] != c,
    ensures
        find_char_from(s, c, from) == Some(k),
    decreases k - from,
{
    if from < k {
        lemma_find_char_from_first(s, c, from + 1, k);
    }
}

/// Character-for-character string equality.
pub fn str_eq(a: &str, b: &str) -> (r: bool)
    ensures
        r == (a@ == b@),
{
    let na: usize = a.unicode_len();
    let nb: usize = b.unicode_len();
    if na != nb {
        assert(a@ != b@) by {
            assert(a@.len() != b@.len());
        }
        return false;
    }
    let mut i: usize = 0;
    while i < na
        invariant
            0 <= i <= na,
            na == a@.len(),
            na == b@.len(),
            forall|j: int| 0 <= j < i ==> a@[j] == b@[j],
        decreases na - i,
    {
        if a.get_char(i) != b.get_char(i) {
            return false;
        }
        i = i + 1;
    }
    proof {
        assert(a@ =~= b@);
    }
    true
}

pub open spec fn is_digit(c: char) -> bool {
    48 <= c as u32 <= 57
}

pub open spec fn digit_of(c: char) -> int {
    c as u32 - 48
}

pub open spec fn all_digits(s: Seq<char>) -> bool {
    forall|i: int| 0 <= i < s.len() ==> is_digit(#[trigger] s[i])
}

/// The integer a digit sequence denotes, most significant digit first.
pub open spec fn digits_int(s: Seq<char>) -> int
    decreases s.len(),
{
    if s.len() == 0 {
        0
    } else {
        digits_int(s.drop_last()) * 10 + digit_of(s.last())
    }
}

/// The value of a non-empty all-digit sequence, and nothing else.
pub open spec fn dec_uint(s: Seq<char>) -> Option<int> {
    if s.len() > 0 && all_digits(s) {
        Some(digits_int(s))
    } else {
        None
    }
}

/// What Rust's unsigned `from_str` accepts, value aside: an optional
/// leading `+`, then one or more decimal digits.
pub open spec fn rust_uint(s: Seq<char>) -> Option<int> {
    if s.len() > 0 && s[0] == '+' {
        dec_uint(s.subrange(1, s.len() as int))
    } else {
        dec_uint(s)
    }
}

pub proof fn lemma_digits_int_nonneg(s: Seq<char>)
    requires
        all_digits(s),
    ensures
        digits_int(s) >= 0,
    decreases s.len(),
{
    if s.len() > 0 {
        assert(all_digits(s.drop_last())) by {
            assert(forall|i: int| 0 <= i < s.len() - 1 ==> s.drop_last()[i] == s[i]);
        }
        lemma_digits_int_nonneg(s.drop_last());
    }
}

/// Appending digits never decreases the denoted value.
pub proof fn lemma_digits_int_prefix(s: Seq<char>, k: int)
    requires
        all_digits(s),
        0 <= k <= s.len(),
    ensures
        digits_int(s) >= digits_int(s.subrange(0, k)),
    decreases s.len() - k,
{
    if k < s.len() {
        let t = s.subrange(0, k + 1);
        assert(t.drop_last() =~= s.subrange(0, k));
        assert(all_digits(t));
        lemma_digits_int_nonneg(t.drop_last());
        assert(digits_int(t) == digits_int(s.subrange(0, k)) * 10 + digit_of(s[k]));
        assert(digits_int(t) >= digits_int(s.subrange(0, k)));
        lemma_digits_int_prefix(s, k + 1);
        assert(s.subrange(0, s.len() as int) =~= s);
    } else {
        assert(s.subrange(0, k) =~= s);
    }
}

/// Parses an unsigned decimal integer as Rust's `from_str` does, refusing
/// values above `max`.
pub fn parse_uint(s: &str, max: u64) -> (r: Option<u64>)
    ensures
        match r {
            Some(v) => rust_uint(s@) == Some(v as int) && v <= max,
            None => match rust_uint(s@) {
                Some(v) => v > max,
                None => true,
            },
        },
{
    let n: usize = s.unicode_len();
    let start: usize = if n > 0 && s.get_char(0) == '+' {
        1
    } else {
        0
    };
    let ghost digits = s@.subrange(start as int, n as int);
    assert(rust_uint(s@) == dec_uint(digits)) by {
        if !(n > 0 && s@[0] == '+') {
            assert(digits =~= s@);
        }
    };
    if start >= n {
        assert(dec_uint(digits) is None);
        return None;
    }
    let mut i: usize = start;
    let mut val: u64 = 0;
    while i < n
        invariant
            start <= i <= n,
            start <= 1,
            start < n,
            n == s@.len(),
            digits == s@.subrange(start as int, n as int),
            rust_uint(s@) == dec_uint(digits),
            all_digits(s@.subrange(start as int, i as int)),
            val == digits_int(s@.subrange(start as int, i as int)),
            val <= max,
        decreases n - i,
    {
        let c = s.get_char(i);
        let u: u32 = c as u32;
        let ghost pre = s@.subrange(start as int, i as int);
        let ghost cur = s@.subrange(start as int, i + 1 as int);
        assert(cur.drop_last() =~= pre);
        if u < 48 || u > 57 {
            assert(!is_digit(s@[i as int]));
            assert(!all_digits(digits)) by {
                assert(digits[i - start] == s@[i as int]);
            }
            return None;
        }
        let d: u64 = ((u - 48) as u64);
        if val > max / 10 || (val == max / 10 && d > max % 10) {
            proof {
                assert(digits_int(cur) == val * 10 + d);
                assert(digits_int(cur) > max);
                if all_digits(digits) {
                    assert(cur =~= digits.subrange(0, i + 1 - start));
                    lemma_digits_int_prefix(digits, i + 1 - start);
                    assert(digits_int(digits) > max);
                }
            }
            return None;
        }
        assert(val * 10 + d <= max);
        val = val * 10 + d;
        i = i + 1;
        assert(val == digits_int(s@.subrange(start as int, i as int)));
    }
    assert(s@.subrange(start as int, i as int) =~= digits);
    Some(val)
}

/// `parse_uint` bounded to a `u16`, as used for ports and status codes.
pub open spec fn spec_parse_u16(s: Seq<char>) -> Option<u16> {
    match rust_uint(s) {
        Some(v) => if v <= 0xffff {
            Some(v as u16)
        } else {
            None
        },
        None => None,
    }
}

pub fn parse_u16(s: &str) -> (r: Option<u16>)
    ensures
        r == spec_parse_u16(s@),
{
    match parse_uint(s, 0xffff) {
        Some(v) => Some(v as u16),
        None => None,
    }
}

/// `parse_uint` bounded to a `u32`, as used for `Content-Length`.
pub open spec fn spec_parse_u32(s: Seq<char>) -> Option<u32> {
    match rust_uint(s) {
        Some(v) => if v <= 0xffff_ffff {
            Some(v as u32)
        } else {
            None
        },
        None => None,
    }
}

pub fn parse_u32(s: &str) -> (r: Option<u32>)
    ensures
        r == spec_parse_u32(s@),
{
    match parse_uint(s, 0xffff_ffff) {
        Some(v) => Some(v as u32),
        None => None,
    }
}

pub open spec fn digit_char(d: int) -> char {
    ((48 + d) as u32) as char
}

/// Decimal rendering of a non-negative integer, no sign, no leading zeros.
pub open spec fn dec_digits(n: int) -> Seq<char>
    decreases n when n >= 0
{
    if n < 10 {
        seq![digit_char(n)]
    } else {
        dec_digits(n / 10).push(digit_char(n % 10))
    }
}

fn digit_str(d: u16) -> (r: &'static str)
    requires
        d < 10,
    ensures
        r@ =~= seq![digit_char(d as int)],
{
    proof {
        vstd::utf8::char_u32_cast('0', 48);
        vstd::utf8::char_u32_cast('1', 49);
        vstd::utf8::char_u32_cast('2', 50);
        vstd::utf8::char_u32_cast('3', 51);
        vstd::utf8::char_u32_cast('4', 52);
        vstd::utf8::char_u32_cast('5', 53);
        vstd::utf8::char_u32_cast('6', 54);
        vstd::utf8::char_u32_cast('7', 55);
        vstd::utf8::char_u32_cast('8', 56);
        vstd::utf8::char_u32_cast('9', 57);
        reveal_strlit("0");
        reveal_strlit("1");
        reveal_strlit("2");
        reveal_strlit("3");
        reveal_strlit("4");
        reveal_strlit("5");
        reveal_strlit("6");
        reveal_strlit("7");
        reveal_strlit("8");
        reveal_strlit("9");
    }
    match d {
        0 => "0",
        1 => "1",
        2 => "2",
        3 => "3",
        4 => "4",
        5 => "5",
        6 => "6",
        7 => "7",
        8 => "8",
        _ => "9",
    }
}

/// Renders `n` in decimal, as `dec_digits` describes.
pub fn u16_to_string(n: u16) -> (r: String)
    ensures
        r@ == dec_digits(n as int),
    decreases n,
{
    if n < 10 {
        digit_str(n).to_owned()
    } else {
        let pre = u16_to_string(n / 10);
        let r = pre.concat(digit_str(n % 10));
        proof {
            assert(dec_digits((n / 10) as int).push(digit_char((n % 10) as int)) =~= dec_digits(
                (n / 10) as int,
            ) + seq![digit_char((n % 10) as int)]);
        }
        r
    }
}

/// Every digit `dec_digits` emits really is a digit.
pub proof fn lemma_dec_digits_all_digits(n: int)
    requires
        n >= 0,
    ensures
        dec_digits(n).len() > 0,
        all_digits(dec_digits(n)),
    decreases n,
{
    if n < 10 {
        vstd::utf8::char_is_scalar(digit_char(n));
        assert((digit_char(n)) as u32 == 48 + n) by {
            assert(((48 + n) as u32) as char == digit_char(n));
            lemma_digit_char_val(n);
        }
        assert(is_digit(digit_char(n)));
    } else {
        lemma_dec_digits_all_digits(n / 10);
        lemma_digit_char_val(n % 10);
        assert(is_digit(digit_char(n % 10)));
        assert(forall|i: int|
            0 <= i < dec_digits(n).len() - 1 ==> dec_digits(n)[i] == dec_digits(n / 10)[i]);
    }
}

/// `(48 + d) as u32 as char`, cast back to `u32`, is `48 + d` again.
proof fn lemma_digit_char_val(d: int)
    requires
        0 <= d < 10,
    ensures
        digit_char(d) as u32 == 48 + d,
{
    let c: char = if d == 0 {
        '0'
    } else if d == 1 {
        '1'
    } else if d == 2 {
        '2'
    } else if d == 3 {
        '3'
    } else if d == 4 {
        '4'
    } else if d == 5 {
        '5'
    } else if d == 6 {
        '6'
    } else if d == 7 {
        '7'
    } else if d == 8 {
        '8'
    } else {
        '9'
    };
    assert(c as u32 == 48 + d);
    vstd::utf8::char_u32_cast(c, (48 + d) as u32);
}

/// Rendering then parsing an integer gives the integer back.
pub proof fn lemma_digits_round_trip(n: int)
    requires
        n >= 0,
    ensures
        digits_int(dec_digits(n)) == n,
        dec_uint(dec_digits(n)) == Some(n),
        rust_uint(dec_digits(n)) == Some(n),
    decreases n,
{
    lemma_dec_digits_all_digits(n);
    if n < 10 {
        lemma_digit_char_val(n);
        let s = dec_digits(n);
        assert(s =~= seq![digit_char(n)]);
        assert(s.drop_last() =~= Seq::<char>::empty());
        assert(digits_int(Seq::<char>::empty()) == 0);
        assert(digits_int(s) == digits_int(s.drop_last()) * 10 + digit_of(s.last()));
        assert(digits_int(dec_digits(n)) == n);
    } else {
        lemma_digits_round_trip(n / 10);
        let s = dec_digits(n);
        assert(s.drop_last() =~= dec_digits(n / 10));
        assert(s.last() == digit_char(n % 10));
        lemma_digit_char_val(n % 10);
        assert(digits_int(s) == (n / 10) * 10 + (n % 10));
    }
    assert(is_digit(dec_digits(n)[0]));
    assert(dec_digits(n)[0] != '+') by {
        assert('+' as u32 == 43);
    }
}

} // verus!
