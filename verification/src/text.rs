//! Character-level helpers shared by the lyrics code: whitespace, ASCII
//! digits and case, trimming, and conversions between strings and characters.

use vstd::prelude::*;

verus! {

/// Unicode `White_Space`, as `char::is_whitespace` defines it.
pub open spec fn is_ws(c: char) -> bool {
    ||| ('\u{9}' <= c && c <= '\u{d}')
    ||| c == ' '
    ||| c == '\u{85}'
    ||| c == '\u{a0}'
    ||| c == '\u{1680}'
    ||| ('\u{2000}' <= c && c <= '\u{200a}')
    ||| c == '\u{2028}'
    ||| c == '\u{2029}'
    ||| c == '\u{202f}'
    ||| c == '\u{205f}'
    ||| c == '\u{3000}'
}

/// Whether `c` is white space (Unicode `White_Space`).
pub fn is_whitespace(c: char) -> (b: bool)
    ensures
        b == is_ws(c),
{
    ('\u{9}' <= c && c <= '\u{d}') || c == ' ' || c == '\u{85}' || c == '\u{a0}' || c == '\u{1680}'
        || ('\u{2000}' <= c && c <= '\u{200a}') || c == '\u{2028}' || c == '\u{2029}'
        || c == '\u{202f}' || c == '\u{205f}' || c == '\u{3000}'
}

/// An ASCII decimal digit.
pub open spec fn is_digit(c: char) -> bool {
    '0' <= c && c <= '9'
}

/// The value of an ASCII decimal digit.
pub open spec fn digit_val(c: char) -> nat {
    (c as int - '0' as int) as nat
}

pub fn digit_value(c: char) -> (v: u32)
    requires
        is_digit(c),
    ensures
        v == digit_val(c),
        v < 10,
{
    (c as u32) - ('0' as u32)
}

/// ASCII lower case, other characters unchanged.
pub open spec fn ascii_lower(c: char) -> char {
    if 'A' <= c && c <= 'Z' {
        ((c as u32) + 32) as char
    } else {
        c
    }
}

/// Index of the first character at or after `i` that is not white space.
pub open spec fn skip_ws(s: Seq<char>, i: int) -> int
    decreases s.len() - i,
{
    if 0 <= i < s.len() && is_ws(s[i]) {
        skip_ws(s, i + 1)
    } else {
        i
    }
}

/// Index just after the last character before `j` (and at or after `lo`) that
/// is not white space.
pub open spec fn back_ws(s: Seq<char>, lo: int, j: int) -> int
    decreases j - lo,
{
    if lo < j && j <= s.len() && is_ws(s[j - 1]) {
        back_ws(s, lo, j - 1)
    } else {
        j
    }
}

/// `s` without leading and trailing white space, as `str::trim` gives it.
pub open spec fn trim(s: Seq<char>) -> Seq<char> {
    let lo = skip_ws(s, 0);
    s.subrange(lo, back_ws(s, lo, s.len() as int))
}

proof fn lemma_skip_ws_bounds(s: Seq<char>, i: int)
    requires
        0 <= i <= s.len(),
    ensures
        i <= skip_ws(s, i) <= s.len(),
    decreases s.len() - i,
{
    if i < s.len() && is_ws(s[i]) {
        lemma_skip_ws_bounds(s, i + 1);
    }
}

proof fn lemma_back_ws_bounds(s: Seq<char>, lo: int, j: int)
    requires
        0 <= lo <= j <= s.len(),
    ensures
        lo <= back_ws(s, lo, j) <= j,
    decreases j - lo,
{
    if lo < j && is_ws(s[j - 1]) {
        lemma_back_ws_bounds(s, lo, j - 1);
    }
}

/// The bounds of `s[from..to]` without surrounding white space.
pub fn trim_bounds(s: &Vec<char>, from: usize, to: usize) -> (r: (usize, usize))
    requires
        from <= to <= s@.len(),
    ensures
        from <= r.0 <= r.1 <= to,
        s@.subrange(r.0 as int, r.1 as int) == trim(s@.subrange(from as int, to as int)),
{
    let ghost t = s@.subrange(from as int, to as int);
    let mut a = from;
    while a < to && is_whitespace(s[a])
        invariant
            from <= a <= to,
            to <= s@.len(),
            t == s@.subrange(from as int, to as int),
            skip_ws(t, (a - from) as int) == skip_ws(t, 0),
        decreases to - a,
    {
        assert(t[(a - from) as int] == s@[a as int]);
        a = a + 1;
    }
    proof {
        if a < to {
            assert(t[(a - from) as int] == s@[a as int]);
        }
    }
    let ghost lo = (a - from) as int;
    let mut b = to;
    while b > a && is_whitespace(s[b - 1])
        invariant
            from <= a <= b <= to,
            to <= s@.len(),
            t == s@.subrange(from as int, to as int),
            lo == a - from,
            back_ws(t, lo, (b - from) as int) == back_ws(t, lo, t.len() as int),
        decreases b - a,
    {
        assert(t[(b - 1 - from) as int] == s@[b - 1]);
        b = b - 1;
    }
    proof {
        if b > a {
            assert(t[(b - 1 - from) as int] == s@[b - 1]);
        }
        assert(t.subrange(lo, (b - from) as int) =~= s@.subrange(a as int, b as int));
    }
    (a, b)
}

/// Appends `c` to `s` (`String::push`).
#[verifier::external_body]
pub(crate) fn push_char(s: &mut String, c: char)
    ensures
        final(s)@ == old(s)@.push(c),
{
    s.push(c);
}

/// The characters of `s`.
pub fn chars_of(s: &str) -> (v: Vec<char>)
    ensures
        v@ == s@,
{
    let mut v: Vec<char> = Vec::new();
    let n = s.unicode_len();
    let mut i: usize = 0;
    while i < n
        invariant
            n == s@.len(),
            i <= n,
            v@ == s@.subrange(0, i as int),
        decreases n - i,
    {
        v.push(s.get_char(i));
        i = i + 1;
        assert(v@ =~= s@.subrange(0, i as int));
    }
    assert(v@ =~= s@);
    v
}

/// The string made of `v[from..to]`.
pub fn string_of(v: &Vec<char>, from: usize, to: usize) -> (s: String)
    requires
        from <= to <= v@.len(),
    ensures
        s@ == v@.subrange(from as int, to as int),
{
    let mut s = String::new();
    let mut i = from;
    while i < to
        invariant
            from <= i <= to,
            to <= v@.len(),
            s@ == v@.subrange(from as int, i as int),
        decreases to - i,
    {
        push_char(&mut s, v[i]);
        i = i + 1;
        assert(s@ =~= v@.subrange(from as int, i as int));
    }
    s
}

/// Whether two character sequences are equal.
pub fn chars_eq(a: &Vec<char>, b: &Vec<char>) -> (r: bool)
    ensures
        r == (a@ == b@),
{
    if a.len() != b.len() {
        return false;
    }
    let mut i: usize = 0;
    while i < a.len()
        invariant
            a@.len() == b@.len(),
            i <= a@.len(),
            forall|j: int| 0 <= j < i ==> a@[j] == b@[j],
        decreases a@.len() - i,
    {
        if a[i] != b[i] {
            return false;
        }
        i = i + 1;
    }
    assert(a@ =~= b@);
    true
}

/// Whether two strings hold the same characters.
pub fn str_eq(a: &str, b: &str) -> (r: bool)
    ensures
        r == (a@ == b@),
{
    let n = a.unicode_len();
    if n != b.unicode_len() {
        return false;
    }
    let mut i: usize = 0;
    while i < n
        invariant
            n == a@.len(),
            n == b@.len(),
            i <= n,
            forall|j: int| 0 <= j < i ==> a@[j] == b@[j],
        decreases n - i,
    {
        if a.get_char(i) != b.get_char(i) {
            return false;
        }
        i = i + 1;
    }
    assert(a@ =~= b@);
    true
}

/// Whether `s`, in ASCII lower case, is `lit`.
pub fn lower_eq(s: &str, lit: &str) -> (r: bool)
    ensures
        r == (s@.map_values(|c: char| ascii_lower(c)) == lit@),
{
    let n = s.unicode_len();
    if n != lit.unicode_len() {
        assert(s@.map_values(|c: char| ascii_lower(c)).len() != lit@.len());
        return false;
    }
    let ghost low = s@.map_values(|c: char| ascii_lower(c));
    let mut i: usize = 0;
    while i < n
        invariant
            n == s@.len(),
            n == lit@.len(),
            low == s@.map_values(|c: char| ascii_lower(c)),
            i <= n,
            forall|j: int| 0 <= j < i ==> low[j] == lit@[j],
        decreases n - i,
    {
        let c = s.get_char(i);
        let lc = if 'A' <= c && c <= 'Z' {
            ((c as u8) + 32) as char
        } else {
            c
        };
        assert(low[i as int] == ascii_lower(c));
        if lc != lit.get_char(i) {
            return false;
        }
        i = i + 1;
    }
    assert(low =~= lit@);
    true
}

/// Whether `s` is one or more ASCII digits.
pub open spec fn all_digits(s: Seq<char>) -> bool {
    s.len() > 0 && forall|i: int| 0 <= i < s.len() ==> is_digit(#[trigger] s[i])
}

/// The value of a string of decimal digits.
pub open spec fn decimal_value(s: Seq<char>) -> int
    decreases s.len(),
{
    if s.len() == 0 {
        0
    } else {
        decimal_value(s.drop_last()) * 10 + digit_val(s.last())
    }
}

/// What `str::parse` gives for an unsigned integer type whose largest value
/// is `max`: an optional `+`, then one or more ASCII digits whose value is at
/// most `max`.
pub open spec fn parsed_decimal(s: Seq<char>, max: int) -> Option<int> {
    let d = if s.len() > 0 && s[0] == '+' {
        s.drop_first()
    } else {
        s
    };
    if all_digits(d) && decimal_value(d) <= max {
        Some(decimal_value(d))
    } else {
        None
    }
}

/// What `str::parse::<u32>` gives.
pub open spec fn parsed_u32(s: Seq<char>) -> Option<u32> {
    match parsed_decimal(s, u32::MAX as int) {
        Some(v) => Some(v as u32),
        None => None,
    }
}

/// What `str::parse::<u64>` gives.
pub open spec fn parsed_u64(s: Seq<char>) -> Option<u64> {
    match parsed_decimal(s, u64::MAX as int) {
        Some(v) => Some(v as u64),
        None => None,
    }
}

proof fn lemma_decimal_prefix(s: Seq<char>, k: int)
    requires
        0 <= k <= s.len(),
        forall|i: int| 0 <= i < s.len() ==> is_digit(#[trigger] s[i]),
    ensures
        decimal_value(s.subrange(0, k)) <= decimal_value(s),
        0 <= decimal_value(s),
    decreases s.len(),
{
    if s.len() > 0 {
        if k == s.len() {
            assert(s.subrange(0, k) =~= s);
            lemma_decimal_prefix(s.drop_last(), 0);
        } else {
            lemma_decimal_prefix(s.drop_last(), k);
            assert(s.drop_last().subrange(0, k) =~= s.subrange(0, k));
        }
    }
}

/// The number that `s` spells in decimal, when it is at most `max`.
fn parse_decimal(s: &str, max: u64) -> (r: Option<u64>)
    ensures
        match parsed_decimal(s@, max as int) {
            Some(v) => r == Some(v as u64),
            None => r is None,
        },
        r matches Some(x) ==> parsed_decimal(s@, max as int) == Some(x as int),
{
    let v = chars_of(s);
    let n = v.len();
    let start: usize = if n > 0 && v[0] == '+' {
        1
    } else {
        0
    };
    let ghost d = v@.subrange(start as int, n as int);
    proof {
        if start == 1 {
            assert(d =~= s@.drop_first());
        } else {
            assert(d =~= s@);
        }
    }
    assert(parsed_decimal(s@, max as int) == (if all_digits(d) && decimal_value(d) <= max {
        Some(decimal_value(d))
    } else {
        None
    }));
    if start == n {
        return None;
    }
    let mut value: u128 = 0;
    let mut i = start;
    while i < n
        invariant
            start <= i <= n,
            n == v@.len(),
            d == v@.subrange(start as int, n as int),
            parsed_decimal(s@, max as int) == (if all_digits(d) && decimal_value(d) <= max {
                Some(decimal_value(d))
            } else {
                None
            }),
            forall|j: int| start <= j < i ==> is_digit(#[trigger] v@[j]),
            value == decimal_value(v@.subrange(start as int, i as int)),
            value <= max,
        decreases n - i,
    {
        let c = v[i];
        if !('0' <= c && c <= '9') {
            proof {
                assert(d[i - start] == c);
                assert(!is_digit(d[i - start]));
            }
            return None;
        }
        let next: u128 = value * 10 + digit_value(c) as u128;
        proof {
            let p = v@.subrange(start as int, i + 1);
            assert(p.drop_last() =~= v@.subrange(start as int, i as int));
            assert(p.last() == c);
        }
        if next > max as u128 {
            proof {
                let p = v@.subrange(start as int, i + 1);
                assert(decimal_value(p) == next);
                if forall|j: int| 0 <= j < d.len() ==> is_digit(#[trigger] d[j]) {
                    assert(d.subrange(0, i + 1 - start) =~= p);
                    lemma_decimal_prefix(d, i + 1 - start);
                }
            }
            return None;
        }
        value = next;
        i = i + 1;
    }
    proof {
        assert(v@.subrange(start as int, i as int) =~= d);
        assert forall|j: int| 0 <= j < d.len() implies is_digit(#[trigger] d[j]) by {
            assert(d[j] == v@[start + j]);
        }
    }
    Some(value as u64)
}

/// The number that `s` spells in decimal, as `str::parse::<u32>` reads it.
pub fn parse_u32(s: &str) -> (r: Option<u32>)
    ensures
        r == parsed_u32(s@),
{
    match parse_decimal(s, 4294967295) {
        Some(v) => Some(v as u32),
        None => None,
    }
}

/// The number that `s` spells in decimal, as `str::parse::<u64>` reads it.
pub fn parse_u64(s: &str) -> (r: Option<u64>)
    ensures
        r == parsed_u64(s@),
{
    parse_decimal(s, 18446744073709551615)
}

/// The ASCII digit of a value below ten.
pub open spec fn digit_char(d: int) -> char {
    (d + '0' as int) as char
}

/// The decimal digits of `n`, without leading zeros.
pub open spec fn decimal_digits(n: nat) -> Seq<char>
    decreases n,
{
    if n < 10 {
        seq![digit_char(n as int)]
    } else {
        decimal_digits(n / 10) + seq![digit_char((n % 10) as int)]
    }
}

/// Reading back the decimal digits of a number gives the number.
pub proof fn lemma_decimal_round_trip(n: nat)
    ensures
        all_digits(decimal_digits(n)),
        decimal_value(decimal_digits(n)) == n,
        decimal_digits(n)[0] != '+',
    decreases n,
{
    if n < 10 {
        let s = decimal_digits(n);
        assert(s.drop_last() =~= Seq::<char>::empty());
        assert(digit_val(digit_char(n as int)) == n);
        assert(s.last() == digit_char(n as int));
        assert(decimal_value(s) == decimal_value(s.drop_last()) * 10 + digit_val(s.last()));
    } else {
        lemma_decimal_round_trip(n / 10);
        let s = decimal_digits(n);
        assert(s.drop_last() =~= decimal_digits(n / 10));
        assert(digit_val(digit_char((n % 10) as int)) == n % 10);
        assert((n / 10) * 10 + n % 10 == n);
        assert(s.last() == digit_char((n % 10) as int));
        assert(decimal_value(s) == decimal_value(s.drop_last()) * 10 + digit_val(s.last()));
        assert forall|i: int| 0 <= i < s.len() implies is_digit(#[trigger] s[i]) by {
            if i < s.len() - 1 {
                assert(s[i] == decimal_digits(n / 10)[i]);
            }
        }
    }
}

/// The decimal digits of `n`.
pub fn decimal_string(n: u64) -> (r: String)
    ensures
        r@ == decimal_digits(n as nat),
{
    let mut digits: Vec<char> = Vec::new();
    let mut m = n;
    while m >= 10
        invariant
            decimal_digits(n as nat) == decimal_digits(m as nat) + digits@.reverse(),
        decreases m,
    {
        let d = (m % 10) as u8;
        let c = (d + 48) as char;
        let ghost before = digits@;
        digits.push(c);
        proof {
            assert(c == digit_char((m % 10) as int));
            assert(digits@.reverse() =~= seq![c] + before.reverse());
            assert(decimal_digits(m as nat) == decimal_digits((m / 10) as nat) + seq![c]);
        }
        m = m / 10;
    }
    let last = ((m as u8) + 48) as char;
    digits.push(last);
    let mut out = String::new();
    let mut i = digits.len();
    while i > 0
        invariant
            i <= digits@.len(),
            out@ == digits@.subrange(i as int, digits@.len() as int).reverse(),
        decreases i,
    {
        push_char(&mut out, digits[i - 1]);
        proof {
            assert(digits@.subrange(i - 1, digits@.len() as int).reverse() =~= digits@.subrange(
                i as int,
                digits@.len() as int,
            ).reverse().push(digits@[i - 1]));
        }
        i = i - 1;
    }
    proof {
        assert(digits@.subrange(0, digits@.len() as int) =~= digits@);
        assert(last == digit_char(m as int));
        assert(digits@.reverse() =~= seq![last] + digits@.drop_last().reverse());
    }
    out
}

/// `s` without the prefix `prefix`, when it starts with it.
pub open spec fn strip_prefix_spec(s: Seq<char>, prefix: Seq<char>) -> Option<Seq<char>> {
    if prefix.len() <= s.len() && s.subrange(0, prefix.len() as int) == prefix {
        Some(s.subrange(prefix.len() as int, s.len() as int))
    } else {
        None
    }
}

/// `s` without the prefix `prefix`, when it starts with it.
pub fn strip_prefix(s: &str, prefix: &str) -> (r: Option<String>)
    ensures
        r.deep_view() == strip_prefix_spec(s@, prefix@),
{
    let n = s.unicode_len();
    let m = prefix.unicode_len();
    if m > n {
        return None;
    }
    let mut i: usize = 0;
    while i < m
        invariant
            n == s@.len(),
            m == prefix@.len(),
            m <= n,
            i <= m,
            forall|j: int| 0 <= j < i ==> s@[j] == prefix@[j],
        decreases m - i,
    {
        if s.get_char(i) != prefix.get_char(i) {
            assert(s@.subrange(0, m as int)[i as int] != prefix@[i as int]);
            return None;
        }
        i = i + 1;
    }
    assert(s@.subrange(0, m as int) =~= prefix@);
    let mut out = String::new();
    let mut k = m;
    while k < n
        invariant
            n == s@.len(),
            m <= k <= n,
            out@ == s@.subrange(m as int, k as int),
        decreases n - k,
    {
        push_char(&mut out, s.get_char(k));
        k = k + 1;
        assert(out@ =~= s@.subrange(m as int, k as int));
    }
    Some(out)
}

} // verus!
