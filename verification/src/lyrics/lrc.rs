//! The LRC lyrics format: lines of text preceded by `[mm:ss.xx]` time tags.
//!
//! A time tag is `[`, one or two digits of minutes, `:`, two digits of
//! seconds, optionally `.` or `:` followed by one to three digits of fraction,
//! and `]`. A digit is any Unicode decimal digit, as the regular expression
//! class `\d` has it; a field counts as zero unless all its digits are ASCII.
//! A fraction of one digit counts tenths, two digits hundredths and three
//! digits milliseconds. Every time tag of a line gives one lyric line
//! whose text is the line without its time tags, trimmed; lines without time
//! tags (metadata such as `[ar:Artist]`, blank lines) give none. The result is
//! ordered by start time, lines with equal start times keeping their order.

use vstd::prelude::*;
use crate::lyrics::model::{LineView, LyricLine, lines_view};
use crate::text::{chars_of, digit_val, digit_value, is_digit, string_of, trim, trim_bounds};

verus! {

/// Whether the regular expression class `\d` matches `c`.
pub uninterp spec fn class_digit(c: char) -> bool;

/// Whether `regex`'s class `\d` (Unicode decimal digits) matches `c`, by
/// matching `c` alone against `\A\d\z`. Claimed: the answer depends on `c`
/// alone, and ASCII digits are matched; which other characters are is not
/// stated.
#[verifier::external_body]
fn regex_digit(c: char) -> (r: bool)
    ensures
        r == class_digit(c),
        '0' <= c <= '9' ==> r,
{
    let mut buf = [0u8; 4];
    match regex::Regex::new(r"\A\d\z") {
        Ok(re) => re.is_match(c.encode_utf8(&mut buf)),
        Err(_) => false,
    }
}

/// Whether `c` counts as a digit of a time tag: whether the class `\d`
/// matches it. Every ASCII digit does.
pub fn digit_class(c: char) -> (r: bool)
    ensures
        r == class_digit(c),
        '0' <= c <= '9' ==> r,
{
    regex_digit(c)
}

/// Whether `s[k]` is a digit of a time tag: an ASCII digit, or another
/// character that the class `\d` matches.
pub open spec fn digit_at(s: Seq<char>, k: int) -> bool {
    0 <= k < s.len() && (is_digit(s[k]) || class_digit(s[k]))
}

/// Whether the `n` characters at `s[k..k + n]` are all ASCII digits.
pub open spec fn ascii_digits(s: Seq<char>, k: int, n: int) -> bool {
    forall|j: int| k <= j < k + n ==> is_digit(#[trigger] s[j])
}

/// Whether `s[k]` is `c`.
pub open spec fn char_at(s: Seq<char>, k: int, c: char) -> bool {
    0 <= k < s.len() && s[k] == c
}

/// The number of minute digits of a time tag opening at `i`, or 0.
pub open spec fn minute_digits(s: Seq<char>, i: int) -> int {
    if digit_at(s, i + 1) && digit_at(s, i + 2) && char_at(s, i + 3, ':') {
        2
    } else if digit_at(s, i + 1) && char_at(s, i + 2, ':') {
        1
    } else {
        0
    }
}

/// The number of fraction digits of a time tag whose fraction separator would
/// be at `p`, or 0 when there is no fraction closed by `]`.
pub open spec fn fraction_digits(s: Seq<char>, p: int) -> int {
    if char_at(s, p, '.') || char_at(s, p, ':') {
        if digit_at(s, p + 1) && digit_at(s, p + 2) && digit_at(s, p + 3) && char_at(s, p + 4, ']') {
            3
        } else if digit_at(s, p + 1) && digit_at(s, p + 2) && char_at(s, p + 3, ']') {
            2
        } else if digit_at(s, p + 1) && char_at(s, p + 2, ']') {
            1
        } else {
            0
        }
    } else {
        0
    }
}

/// The length of the time tag that starts at `i`, or 0 when none does.
pub open spec fn tag_len(s: Seq<char>, i: int) -> int {
    if char_at(s, i, '[') && minute_digits(s, i) > 0 {
        let q = i + minute_digits(s, i) + 2;
        if digit_at(s, q) && digit_at(s, q + 1) {
            let p = q + 2;
            if fraction_digits(s, p) > 0 {
                p + fraction_digits(s, p) + 2 - i
            } else if char_at(s, p, ']') {
                p + 1 - i
            } else {
                0
            }
        } else {
            0
        }
    } else {
        0
    }
}

/// The value of the `n` (one to three) digits at `s[k..k + n]`; zero unless
/// they are all ASCII digits.
pub open spec fn digits_value(s: Seq<char>, k: int, n: int) -> int {
    if !ascii_digits(s, k, n) {
        0
    } else if n == 1 {
        digit_val(s[k]) as int
    } else if n == 2 {
        (digit_val(s[k]) * 10 + digit_val(s[k + 1])) as int
    } else if n == 3 {
        (digit_val(s[k]) * 100 + digit_val(s[k + 1]) * 10 + digit_val(s[k + 2])) as int
    } else {
        0
    }
}

/// The time in milliseconds that the tag at `i` stands for.
pub open spec fn tag_ms(s: Seq<char>, i: int) -> int {
    let m = minute_digits(s, i);
    let q = i + m + 2;
    let p = q + 2;
    let f = fraction_digits(s, p);
    let frac = if f == 1 {
        digits_value(s, p + 1, 1) * 100
    } else if f == 2 {
        digits_value(s, p + 1, 2) * 10
    } else {
        digits_value(s, p + 1, f)
    };
    (digits_value(s, i + 1, m) * 60 + digits_value(s, q, 2)) * 1000 + frac
}

/// `s[i..]` with its time tags removed.
pub open spec fn strip_tags(s: Seq<char>, i: int) -> Seq<char>
    decreases s.len() - i,
{
    if i < 0 || i >= s.len() {
        Seq::empty()
    } else if tag_len(s, i) > 0 {
        strip_tags(s, i + tag_len(s, i))
    } else {
        seq![s[i]] + strip_tags(s, i + 1)
    }
}

/// One lyric line for each time tag of `s[i..]`, all with the text `text`.
pub open spec fn tag_entries(s: Seq<char>, i: int, text: Seq<char>) -> Seq<LineView>
    decreases s.len() - i,
{
    if i < 0 || i >= s.len() {
        Seq::empty()
    } else if tag_len(s, i) > 0 {
        seq![LineView { start_ms: Some(tag_ms(s, i) as u32), text, translation: None, romanization: None }]
            + tag_entries(s, i + tag_len(s, i), text)
    } else {
        tag_entries(s, i + 1, text)
    }
}

/// The lyric lines that one line of LRC text gives, in the order of its tags.
pub open spec fn line_entries(line: Seq<char>) -> Seq<LineView> {
    tag_entries(line, 0, trim(strip_tags(line, 0)))
}

/// The index of the first line feed at or after `i`, or the length.
pub open spec fn line_end(s: Seq<char>, i: int) -> int
    decreases s.len() - i,
{
    if i < 0 || i >= s.len() {
        s.len() as int
    } else if s[i] == '\n' {
        i
    } else {
        line_end(s, i + 1)
    }
}

/// The line that starts at `i`, without its line ending (`\n` or `\r\n`).
pub open spec fn line_at(s: Seq<char>, i: int) -> Seq<char> {
    let e = line_end(s, i);
    if e < s.len() && e > i && s[e - 1] == '\r' {
        s.subrange(i, e - 1)
    } else {
        s.subrange(i, e)
    }
}

/// A line ends at a line feed or at the end, not before it starts.
/// The lines of `s` from the one starting at `i` on, without their line
/// endings, as `str::lines` gives them.
pub open spec fn text_lines(s: Seq<char>, i: int) -> Seq<Seq<char>>
    decreases s.len() + 1 - i,
{
    if i < 0 || i >= s.len() {
        Seq::empty()
    } else {
        let e = line_end(s, i);
        if e < i || e > s.len() {
            Seq::empty()
        } else {
            seq![line_at(s, i)] + text_lines(s, e + 1)
        }
    }
}

/// The lyric lines of the lines of `s` from the one starting at `i` on, in
/// the order in which they appear.
pub open spec fn lrc_entries(s: Seq<char>, i: int) -> Seq<LineView>
    decreases s.len() + 1 - i,
{
    if i < 0 || i >= s.len() {
        Seq::empty()
    } else {
        let e = line_end(s, i);
        if e < i || e > s.len() {
            Seq::empty()
        } else {
            line_entries(line_at(s, i)) + lrc_entries(s, e + 1)
        }
    }
}

/// The order key of a lyric line: unsynced lines come first.
pub open spec fn start_key(l: LineView) -> int {
    match l.start_ms {
        Some(ms) => ms as int,
        None => -1,
    }
}

/// `x` inserted into `s` after every line that does not start later.
pub open spec fn insert_by_start(s: Seq<LineView>, x: LineView) -> Seq<LineView>
    decreases s.len(),
{
    if s.len() == 0 {
        seq![x]
    } else if start_key(s.last()) <= start_key(x) {
        s.push(x)
    } else {
        insert_by_start(s.drop_last(), x).push(s.last())
    }
}

/// `s` ordered by start time, lines that start together keeping their order.
pub open spec fn sort_by_start(s: Seq<LineView>) -> Seq<LineView>
    decreases s.len(),
{
    if s.len() == 0 {
        s
    } else {
        insert_by_start(sort_by_start(s.drop_last()), s.last())
    }
}

/// Whether `s` is ordered by start time.
pub open spec fn sorted_by_start(s: Seq<LineView>) -> bool {
    forall|i: int, j: int| 0 <= i < j < s.len() ==> start_key(s[i]) <= start_key(s[j])
}

/// What `parse_lrc` gives for the text `s`.
pub open spec fn lrc_lines(s: Seq<char>) -> Seq<LineView> {
    sort_by_start(lrc_entries(s, 0))
}

/// The number that the ASCII decimal digits `ds` write.
pub open spec fn decimal(ds: Seq<char>) -> int
    decreases ds.len(),
{
    if ds.len() == 0 {
        0
    } else {
        decimal(ds.drop_last()) * 10 + (ds.last() as int - '0' as int)
    }
}

/// Whether every character of `ds` is an ASCII digit.
pub open spec fn all_ascii_digits(ds: Seq<char>) -> bool {
    forall|j: int| 0 <= j < ds.len() ==> is_digit(#[trigger] ds[j])
}

/// The milliseconds that the fraction digits `f` of a time tag stand for:
/// tenths, hundredths or thousandths of a second by their number.
pub open spec fn fraction_ms(f: Seq<char>) -> int {
    if f.len() == 1 {
        decimal(f) * 100
    } else if f.len() == 2 {
        decimal(f) * 10
    } else {
        decimal(f)
    }
}

/// The time tag `[m:sec]`, or `[m:sec<sep>f]` when there are fraction digits.
pub open spec fn time_tag(m: Seq<char>, sec: Seq<char>, sep: char, f: Seq<char>) -> Seq<char> {
    seq!['['] + m + seq![':'] + sec + (if f.len() > 0 {
        seq![sep] + f
    } else {
        Seq::<char>::empty()
    }) + seq![']']
}

proof fn lemma_no_line_feed_end(s: Seq<char>, k: int)
    requires
        0 <= k,
        forall|j: int| 0 <= j < s.len() ==> #[trigger] s[j] != '\n',
    ensures
        line_end(s, k) == s.len(),
    decreases s.len() - k,
{
    if k < s.len() {
        lemma_no_line_feed_end(s, k + 1);
    }
}

proof fn lemma_untagged_rest(s: Seq<char>, k: int, text: Seq<char>)
    requires
        0 <= k <= s.len(),
        forall|j: int| k <= j < s.len() ==> #[trigger] s[j] != '[',
    ensures
        strip_tags(s, k) == s.subrange(k, s.len() as int),
        tag_entries(s, k, text) == Seq::<LineView>::empty(),
    decreases s.len() - k,
{
    if k < s.len() {
        assert(tag_len(s, k) == 0);
        lemma_untagged_rest(s, k + 1, text);
        assert(s.subrange(k, s.len() as int) =~= seq![s[k]] + s.subrange(k + 1, s.len() as int));
    } else {
        assert(s.subrange(k, s.len() as int) =~= Seq::<char>::empty());
    }
}

proof fn lemma_digits_decimal(s: Seq<char>, k: int, ds: Seq<char>)
    requires
        1 <= ds.len() <= 3,
        0 <= k,
        k + ds.len() <= s.len(),
        forall|j: int| 0 <= j < ds.len() ==> s[k + j] == #[trigger] ds[j],
        all_ascii_digits(ds),
    ensures
        digits_value(s, k, ds.len() as int) == decimal(ds),
{
    reveal_with_fuel(decimal, 4);
    let n = ds.len() as int;
    assert(s[k] == ds[0]);
    assert(is_digit(ds[0]));
    if n >= 2 {
        assert(s[k + 1] == ds[1]);
        assert(is_digit(ds[1]));
    }
    if n >= 3 {
        assert(s[k + 2] == ds[2]);
        assert(is_digit(ds[2]));
    }
    assert(ascii_digits(s, k, n)) by {
        assert forall|j: int| k <= j < k + n implies is_digit(#[trigger] s[j]) by {
            assert(s[k + (j - k)] == ds[j - k]);
        }
    }
    if n == 1 {
        assert(ds.drop_last() =~= Seq::<char>::empty());
    } else if n == 2 {
        assert(ds.drop_last().drop_last() =~= Seq::<char>::empty());
        assert(ds.drop_last().last() == ds[0]);
    } else {
        assert(ds.drop_last().drop_last().drop_last() =~= Seq::<char>::empty());
        assert(ds.drop_last().drop_last().last() == ds[0]);
        assert(ds.drop_last().last() == ds[1]);
    }
}

/// Whether the tag's digits and separator are well formed.
pub open spec fn tag_parts_ok(m: Seq<char>, sec: Seq<char>, sep: char, f: Seq<char>) -> bool {
    &&& 1 <= m.len() <= 2
    &&& sec.len() == 2
    &&& f.len() <= 3
    &&& all_ascii_digits(m)
    &&& all_ascii_digits(sec)
    &&& all_ascii_digits(f)
    &&& (sep == '.' || sep == ':')
}

/// The milliseconds a well-formed time tag stands for.
pub open spec fn tag_time(m: Seq<char>, sec: Seq<char>, f: Seq<char>) -> int {
    decimal(m) * 60000 + decimal(sec) * 1000 + fraction_ms(f)
}

proof fn lemma_tag_at(s: Seq<char>, i: int, m: Seq<char>, sec: Seq<char>, sep: char, f: Seq<char>)
    requires
        tag_parts_ok(m, sec, sep, f),
        0 <= i,
        i + time_tag(m, sec, sep, f).len() <= s.len(),
        forall|j: int| 0 <= j < time_tag(m, sec, sep, f).len() ==> s[i + j] == #[trigger] time_tag(m, sec, sep, f)[j],
        !char_at(s, i + time_tag(m, sec, sep, f).len(), ']'),
        !char_at(s, i + time_tag(m, sec, sep, f).len() + 1, ']'),
    ensures
        tag_len(s, i) == time_tag(m, sec, sep, f).len(),
        tag_ms(s, i) == tag_time(m, sec, f),
{
    let tag = time_tag(m, sec, sep, f);
    let t = i + tag.len();
    let ml = m.len() as int;
    let fl = f.len() as int;
    let q = i + ml + 2;
    let p = q + 2;
    assert(tag[0] == '[');
    assert(s[i] == '[') by { assert(s[i + 0] == tag[0]); }
    assert forall|j: int| 0 <= j < ml implies s[i + 1 + j] == #[trigger] m[j] by {
        assert(tag[1 + j] == m[j]);
        assert(s[i + (1 + j)] == tag[1 + j]);
    }
    assert(tag[ml + 1] == ':');
    assert(s[i + ml + 1] == ':') by { assert(s[i + (ml + 1)] == tag[ml + 1]); }
    assert forall|j: int| 0 <= j < 2 implies s[q + j] == #[trigger] sec[j] by {
        assert(tag[ml + 2 + j] == sec[j]);
        assert(s[i + (ml + 2 + j)] == tag[ml + 2 + j]);
    }
    assert(s[q] == sec[0] && s[q + 1] == sec[1]);
    assert(is_digit(sec[0]) && is_digit(sec[1]));
    assert(s[i + 1] == m[0] && is_digit(m[0]));
    if ml == 2 {
        assert(s[i + 2] == m[1] && is_digit(m[1]));
        assert(minute_digits(s, i) == 2);
    } else {
        assert(s[i + 3] == sec[0]);
        assert(!char_at(s, i + 3, ':'));
        assert(minute_digits(s, i) == 1);
    }
    assert(digit_at(s, q) && digit_at(s, q + 1));
    lemma_digits_decimal(s, i + 1, m);
    lemma_digits_decimal(s, q, sec);
    if fl > 0 {
        assert(t == p + fl + 2);
        assert(tag[ml + 4] == sep);
        assert(s[p] == sep) by { assert(s[i + (ml + 4)] == tag[ml + 4]); }
        assert forall|j: int| 0 <= j < fl implies s[p + 1 + j] == #[trigger] f[j] by {
            assert(tag[ml + 5 + j] == f[j]);
            assert(s[i + (ml + 5 + j)] == tag[ml + 5 + j]);
        }
        assert(tag[ml + fl + 5] == ']');
        assert(s[p + fl + 1] == ']') by { assert(s[i + (ml + fl + 5)] == tag[ml + fl + 5]); }
        assert(s[p + 1] == f[0] && is_digit(f[0]));
        if fl >= 2 {
            assert(s[p + 2] == f[1] && is_digit(f[1]));
        }
        if fl >= 3 {
            assert(s[p + 3] == f[2] && is_digit(f[2]));
        }
        assert(char_at(s, p, '.') || char_at(s, p, ':'));
        assert(char_at(s, p + fl + 1, ']'));
        assert(digit_at(s, p + 1));
        if fl == 1 {
            assert(!char_at(s, p + 3, ']'));
            assert(!char_at(s, p + 4, ']'));
        } else if fl == 2 {
            assert(digit_at(s, p + 2));
            assert(!char_at(s, p + 4, ']'));
        } else {
            assert(digit_at(s, p + 2));
            assert(digit_at(s, p + 3));
        }
        assert(fraction_digits(s, p) == fl);
        lemma_digits_decimal(s, p + 1, f);
    } else {
        assert(t == p + 1);
        assert(tag[ml + 4] == ']');
        assert(s[p] == ']') by { assert(s[i + (ml + 4)] == tag[ml + 4]); }
        assert(fraction_digits(s, p) == 0);
        assert(f =~= Seq::<char>::empty());
    }
}

/// A line of LRC that is one well-formed time tag with ASCII digits followed
/// by text gives exactly one lyric line: the text, trimmed, starting at
/// minutes * 60000 + seconds * 1000 + the fraction's milliseconds, where the
/// minutes (one or two digits) and seconds (two digits) are read as decimal
/// numbers. For example `[01:02.50]x` starts at 62500 ms.
pub proof fn lemma_tagged_line(m: Seq<char>, sec: Seq<char>, sep: char, f: Seq<char>, text: Seq<char>)
    requires
        tag_parts_ok(m, sec, sep, f),
        forall|j: int| 0 <= j < text.len() ==> #[trigger] text[j] != '[' && text[j] != ']' && text[j] != '\n',
    ensures
        lrc_lines(time_tag(m, sec, sep, f) + text) == seq![
            LineView {
                start_ms: Some((decimal(m) * 60000 + decimal(sec) * 1000 + fraction_ms(f)) as u32),
                text: trim(text),
                translation: None,
                romanization: None,
            },
        ],
{
    let tag = time_tag(m, sec, sep, f);
    let s = tag + text;
    let t = tag.len() as int;
    assert forall|j: int| 0 <= j < t implies s[0 + j] == #[trigger] tag[j] by {}
    assert forall|j: int| t <= j < s.len() implies #[trigger] s[j] != '[' && s[j] != ']' by {
        assert(s[j] == text[j - t]);
    }
    lemma_tag_at(s, 0, m, sec, sep, f);
    assert forall|j: int| 0 <= j < s.len() implies #[trigger] s[j] != '\n' by {
        if j >= t {
            assert(s[j] == text[j - t]);
        } else {
            assert(s[j] == tag[j]);
        }
    }
    let body = trim(strip_tags(s, 0));
    lemma_untagged_rest(s, t, body);
    assert(s.subrange(t, s.len() as int) =~= text);
    assert(strip_tags(s, 0) == text);
    let x = LineView {
        start_ms: Some(tag_time(m, sec, f) as u32),
        text: trim(text),
        translation: None,
        romanization: None,
    };
    assert(tag_entries(s, 0, body) =~= seq![x]);
    lemma_no_line_feed_end(s, 0);
    assert(s.subrange(0, s.len() as int) =~= s);
    assert(line_at(s, 0) == s);
    assert(lrc_entries(s, s.len() + 1int) == Seq::<LineView>::empty());
    assert(lrc_entries(s, 0) =~= seq![x]);
    assert(seq![x].drop_last() =~= Seq::<LineView>::empty());
    assert(sort_by_start(Seq::<LineView>::empty()) == Seq::<LineView>::empty());
    assert(insert_by_start(Seq::<LineView>::empty(), x) == seq![x]);
}

/// A line of LRC with two well-formed time tags before its text gives two
/// lyric lines with that text, trimmed: one at each tag's time, the earlier
/// first (the first tag's when both are equal).
pub proof fn lemma_two_tagged_line(
    m1: Seq<char>,
    sec1: Seq<char>,
    sep1: char,
    f1: Seq<char>,
    m2: Seq<char>,
    sec2: Seq<char>,
    sep2: char,
    f2: Seq<char>,
    text: Seq<char>,
)
    requires
        tag_parts_ok(m1, sec1, sep1, f1),
        tag_parts_ok(m2, sec2, sep2, f2),
        forall|j: int| 0 <= j < text.len() ==> #[trigger] text[j] != '[' && text[j] != ']' && text[j] != '\n',
    ensures
        ({
            let a = LineView {
                start_ms: Some(tag_time(m1, sec1, f1) as u32),
                text: trim(text),
                translation: None,
                romanization: None,
            };
            let b = LineView {
                start_ms: Some(tag_time(m2, sec2, f2) as u32),
                text: trim(text),
                translation: None,
                romanization: None,
            };
            lrc_lines(time_tag(m1, sec1, sep1, f1) + time_tag(m2, sec2, sep2, f2) + text) == if tag_time(
                m1,
                sec1,
                f1,
            ) <= tag_time(m2, sec2, f2) {
                seq![a, b]
            } else {
                seq![b, a]
            }
        }),
{
    let tag1 = time_tag(m1, sec1, sep1, f1);
    let tag2 = time_tag(m2, sec2, sep2, f2);
    let s = tag1 + tag2 + text;
    let a = LineView { start_ms: Some(tag_time(m1, sec1, f1) as u32), text: trim(text), translation: None, romanization: None };
    let b = LineView { start_ms: Some(tag_time(m2, sec2, f2) as u32), text: trim(text), translation: None, romanization: None };
    lemma_two_tag_entries(m1, sec1, sep1, f1, m2, sec2, sep2, f2, text);
    lemma_tag_time_small(m1, sec1, sep1, f1);
    lemma_tag_time_small(m2, sec2, sep2, f2);
    let e = Seq::<LineView>::empty();
    assert(seq![a, b].drop_last() =~= seq![a]);
    assert(seq![a].drop_last() =~= e);
    assert(sort_by_start(e) == e);
    assert(insert_by_start(e, a) == seq![a]);
    assert(sort_by_start(seq![a]) == seq![a]);
    assert(seq![a].last() == a);
    assert(start_key(a) == tag_time(m1, sec1, f1));
    assert(start_key(b) == tag_time(m2, sec2, f2));
    if tag_time(m1, sec1, f1) <= tag_time(m2, sec2, f2) {
        assert(insert_by_start(seq![a], b) =~= seq![a, b]);
    } else {
        assert(insert_by_start(e, b) == seq![b]);
        assert(insert_by_start(seq![a], b) =~= seq![b, a]);
    }
}

proof fn lemma_entries_after_two_tags(s: Seq<char>, t1: int, t2: int)
    requires
        0 < t1,
        0 < t2,
        t1 + t2 <= s.len(),
        tag_len(s, 0) == t1,
        tag_len(s, t1) == t2,
        forall|j: int| t1 + t2 <= j < s.len() ==> #[trigger] s[j] != '[',
        forall|j: int| 0 <= j < s.len() ==> #[trigger] s[j] != '\n',
    ensures
        lrc_entries(s, 0) == seq![
            LineView {
                start_ms: Some(tag_ms(s, 0) as u32),
                text: trim(s.subrange(t1 + t2, s.len() as int)),
                translation: None,
                romanization: None,
            },
            LineView {
                start_ms: Some(tag_ms(s, t1) as u32),
                text: trim(s.subrange(t1 + t2, s.len() as int)),
                translation: None,
                romanization: None,
            },
        ],
{
    let t = t1 + t2;
    let body = trim(strip_tags(s, 0));
    lemma_untagged_rest(s, t, body);
    assert(strip_tags(s, t1) == strip_tags(s, t));
    assert(strip_tags(s, 0) == s.subrange(t, s.len() as int));
    let a = LineView { start_ms: Some(tag_ms(s, 0) as u32), text: body, translation: None, romanization: None };
    let b = LineView { start_ms: Some(tag_ms(s, t1) as u32), text: body, translation: None, romanization: None };
    assert(tag_entries(s, t1, body) =~= seq![b]);
    assert(tag_entries(s, 0, body) =~= seq![a, b]);
    lemma_no_line_feed_end(s, 0);
    assert(s.subrange(0, s.len() as int) =~= s);
    assert(line_at(s, 0) == s);
    assert(lrc_entries(s, s.len() + 1int) == Seq::<LineView>::empty());
    assert(lrc_entries(s, 0) =~= seq![a, b]);
}

#[verifier::rlimit(60)]
proof fn lemma_two_tag_entries(
    m1: Seq<char>,
    sec1: Seq<char>,
    sep1: char,
    f1: Seq<char>,
    m2: Seq<char>,
    sec2: Seq<char>,
    sep2: char,
    f2: Seq<char>,
    text: Seq<char>,
)
    requires
        tag_parts_ok(m1, sec1, sep1, f1),
        tag_parts_ok(m2, sec2, sep2, f2),
        forall|j: int| 0 <= j < text.len() ==> #[trigger] text[j] != '[' && text[j] != ']' && text[j] != '\n',
    ensures
        lrc_entries(time_tag(m1, sec1, sep1, f1) + time_tag(m2, sec2, sep2, f2) + text, 0) == seq![
            LineView { start_ms: Some(tag_time(m1, sec1, f1) as u32), text: trim(text), translation: None, romanization: None },
            LineView { start_ms: Some(tag_time(m2, sec2, f2) as u32), text: trim(text), translation: None, romanization: None },
        ],
{
    let tag1 = time_tag(m1, sec1, sep1, f1);
    let tag2 = time_tag(m2, sec2, sep2, f2);
    let s = tag1 + tag2 + text;
    let t1 = tag1.len() as int;
    let t2 = tag2.len() as int;
    let t = t1 + t2;
    assert(t2 > 1);
    assert forall|j: int| 0 <= j < t1 implies s[0 + j] == #[trigger] tag1[j] by {}
    assert forall|j: int| 0 <= j < t2 implies s[t1 + j] == #[trigger] tag2[j] by {}
    assert forall|j: int| t <= j < s.len() implies #[trigger] s[j] != '[' && s[j] != ']' by {
        assert(s[j] == text[j - t]);
    }
    assert(tag2[0] == '[' && tag2[1] == m2[0]);
    assert(s[t1 + 0] == tag2[0] && s[t1 + 1] == tag2[1]);
    assert(is_digit(m2[0]));
    lemma_tag_at(s, 0, m1, sec1, sep1, f1);
    lemma_tag_at(s, t1, m2, sec2, sep2, f2);
    assert forall|j: int| 0 <= j < s.len() implies #[trigger] s[j] != '\n' by {
        if j >= t {
            assert(s[j] == text[j - t]);
        } else if j >= t1 {
            assert(s[t1 + (j - t1)] == tag2[j - t1]);
        } else {
            assert(s[0 + j] == tag1[j]);
        }
    }
    lemma_entries_after_two_tags(s, t1, t2);
    assert(s.subrange(t, s.len() as int) =~= text);
}

proof fn lemma_tag_time_small(m: Seq<char>, sec: Seq<char>, sep: char, f: Seq<char>)
    requires
        tag_parts_ok(m, sec, sep, f),
    ensures
        0 <= tag_time(m, sec, f) < 0x1_0000_0000,
{
    reveal_with_fuel(decimal, 3);
    if m.len() == 2 {
        assert(m.drop_last().drop_last() =~= Seq::<char>::empty());
        assert(is_digit(m[1]));
        assert(m.drop_last().last() == m[0]);
    } else {
        assert(m.drop_last() =~= Seq::<char>::empty());
    }
    assert(sec.drop_last().drop_last() =~= Seq::<char>::empty());
    assert(sec.drop_last().last() == sec[0]);
    assert(is_digit(m[0]) && is_digit(sec[0]) && is_digit(sec[1]));
    lemma_fraction_small(f);
}

proof fn lemma_fraction_small(f: Seq<char>)
    requires
        f.len() <= 3,
        all_ascii_digits(f),
    ensures
        0 <= fraction_ms(f) < 1000,
{
    reveal_with_fuel(decimal, 4);
    if f.len() >= 1 {
        assert(is_digit(f[0]));
    }
    if f.len() >= 2 {
        assert(is_digit(f[1]));
    }
    if f.len() >= 3 {
        assert(is_digit(f[2]));
    }
    if f.len() == 0 {
    } else if f.len() == 1 {
        assert(f.drop_last() =~= Seq::<char>::empty());
    } else if f.len() == 2 {
        assert(f.drop_last().drop_last() =~= Seq::<char>::empty());
        assert(f.drop_last().last() == f[0]);
    } else {
        assert(f.drop_last().drop_last().drop_last() =~= Seq::<char>::empty());
        assert(f.drop_last().drop_last().last() == f[0]);
        assert(f.drop_last().last() == f[1]);
    }
}

proof fn lemma_insert_by_start(s: Seq<LineView>, x: LineView)
    ensures
        insert_by_start(s, x).to_multiset() == s.to_multiset().insert(x),
        insert_by_start(s, x).len() == s.len() + 1,
        sorted_by_start(s) ==> sorted_by_start(insert_by_start(s, x)),
        forall|k: int| 0 <= k < insert_by_start(s, x).len() ==> (#[trigger] insert_by_start(s, x)[k] == x
            || s.contains(insert_by_start(s, x)[k])),
    decreases s.len(),
{
    broadcast use vstd::seq_lib::group_seq_properties;
    broadcast use vstd::multiset::group_multiset_axioms;
    if s.len() == 0 {
        assert(seq![x] =~= Seq::<LineView>::empty().push(x));
    } else if start_key(s.last()) <= start_key(x) {
    } else {
        let t = s.drop_last();
        lemma_insert_by_start(t, x);
        assert(s =~= t.push(s.last()));
        let r = insert_by_start(t, x);
        assert forall|k: int| 0 <= k < r.push(s.last()).len() implies (#[trigger] r.push(s.last())[k] == x
            || s.contains(r.push(s.last())[k])) by {
            if k < r.len() {
                if r[k] != x {
                    let w = choose|w: int| 0 <= w < t.len() && t[w] == r[k];
                    assert(s[w] == r[k]);
                }
            } else {
                assert(s[s.len() - 1] == s.last());
            }
        }
        if sorted_by_start(s) {
            assert forall|i: int, j: int| 0 <= i < j < r.push(s.last()).len() implies start_key(
                r.push(s.last())[i],
            ) <= start_key(r.push(s.last())[j]) by {
                if j == r.len() {
                    if r[i] == x {
                    } else {
                        let w = choose|w: int| 0 <= w < t.len() && t[w] == r[i];
                        assert(s[w] == r[i]);
                    }
                }
            }
        }
    }
}

/// Ordering by start time keeps every line, as often as it occurs.
pub proof fn lemma_sort_by_start_permutes(s: Seq<LineView>)
    ensures
        sort_by_start(s).to_multiset() == s.to_multiset(),
        sort_by_start(s).len() == s.len(),
    decreases s.len(),
{
    broadcast use vstd::seq_lib::group_seq_properties;
    broadcast use vstd::multiset::group_multiset_axioms;
    if s.len() > 0 {
        lemma_sort_by_start_permutes(s.drop_last());
        lemma_insert_by_start(sort_by_start(s.drop_last()), s.last());
        assert(s =~= s.drop_last().push(s.last()));
    }
}

/// Ordering by start time gives lines in order of start time.
pub proof fn lemma_sort_by_start_sorted(s: Seq<LineView>)
    ensures
        sorted_by_start(sort_by_start(s)),
    decreases s.len(),
{
    if s.len() > 0 {
        lemma_sort_by_start_sorted(s.drop_last());
        lemma_insert_by_start(sort_by_start(s.drop_last()), s.last());
    }
}

proof fn lemma_insert_at(s: Seq<LineView>, x: LineView, j: int)
    requires
        0 <= j <= s.len(),
        forall|k: int| j <= k < s.len() ==> start_key(#[trigger] s[k]) > start_key(x),
        j > 0 ==> start_key(s[j - 1]) <= start_key(x),
    ensures
        insert_by_start(s, x) == s.insert(j, x),
    decreases s.len(),
{
    if s.len() == 0 {
        assert(seq![x] =~= s.insert(j, x));
    } else if j == s.len() {
        assert(s.push(x) =~= s.insert(j, x));
    } else {
        let t = s.drop_last();
        assert(start_key(s[s.len() - 1]) > start_key(x));
        lemma_insert_at(t, x, j);
        assert(t.insert(j, x).push(s.last()) =~= s.insert(j, x));
    }
}

/// Whether the start of `a` is later than the start of `b`.
fn starts_later(a: &Option<u32>, b: &Option<u32>) -> (r: bool)
    ensures
        r == (match *a {
            Some(v) => v as int,
            None => -1,
        } > match *b {
            Some(v) => v as int,
            None => -1,
        }),
{
    match (a, b) {
        (Some(x), Some(y)) => *x > *y,
        (Some(_), None) => true,
        (None, _) => false,
    }
}

/// `v` ordered by start time, lines that start together keeping their order.
pub fn sort_lines(v: Vec<LyricLine>) -> (r: Vec<LyricLine>)
    ensures
        lines_view(r@) == sort_by_start(lines_view(v@)),
{
    let ghost v0 = lines_view(v@);
    let mut rest = v;
    let mut out: Vec<LyricLine> = Vec::new();
    let ghost mut k: int = 0;
    while rest.len() > 0
        invariant
            0 <= k <= v0.len(),
            lines_view(rest@) == v0.subrange(k, v0.len() as int),
            lines_view(out@) == sort_by_start(v0.subrange(0, k)),
        decreases rest.len(),
    {
        assert(lines_view(rest@)[0] == rest@[0]@);
        let ghost before = rest@;
        let x = rest.remove(0);
        proof {
            assert forall|w: int| 0 <= w < rest@.len() implies lines_view(rest@)[w] == v0[k + 1 + w] by {
                assert(rest@[w] == before[w + 1]);
                assert(lines_view(rest@)[w] == rest@[w]@);
                assert(lines_view(before)[w + 1] == before[w + 1]@);
                assert(lines_view(before).len() == before.len());
                assert(before.len() == rest@.len() + 1);
                assert(lines_view(before)[w + 1] == v0.subrange(k, v0.len() as int)[w + 1]);
            }
            assert(lines_view(before).len() == before.len());
            assert(lines_view(rest@).len() == rest@.len());
            assert(lines_view(rest@) =~= v0.subrange(k + 1, v0.len() as int));
            assert(lines_view(before)[0] == v0.subrange(k, v0.len() as int)[0]);
            assert(x@ == v0[k]);
        }
        let ghost s = lines_view(out@);
        let mut j = out.len();
        while j > 0 && starts_later(&out[j - 1].start_ms, &x.start_ms)
            invariant
                j <= out@.len(),
                s == lines_view(out@),
                forall|w: int| j <= w < s.len() ==> start_key(#[trigger] s[w]) > start_key(x@),
            decreases j,
        {
            assert(s[j - 1] == out@[j - 1]@);
            j = j - 1;
        }
        proof {
            if j > 0 {
                assert(s[j - 1] == out@[j - 1]@);
            }
            lemma_insert_at(s, x@, j as int);
        }
        out.insert(j, x);
        proof {
            assert(lines_view(out@) =~= s.insert(j as int, x@));
            let p = v0.subrange(0, k + 1);
            assert(p.drop_last() =~= v0.subrange(0, k));
            assert(p.last() == x@);
            k = k + 1;
        }
    }
    proof {
        assert(v0.subrange(0, k) =~= v0);
    }
    out
}

fn digit_at_exec(s: &Vec<char>, i: usize, off: usize) -> (r: bool)
    requires
        i <= s@.len(),
    ensures
        r == digit_at(s@, i + off),
{
    off < s.len() - i && digit_class(s[i + off])
}

fn char_at_exec(s: &Vec<char>, i: usize, off: usize, c: char) -> (r: bool)
    requires
        i <= s@.len(),
    ensures
        r == char_at(s@, i + off, c),
{
    off < s.len() - i && s[i + off] == c
}

fn minute_digits_exec(s: &Vec<char>, i: usize) -> (r: usize)
    requires
        i <= s@.len(),
    ensures
        r == minute_digits(s@, i as int),
{
    if digit_at_exec(s, i, 1) && digit_at_exec(s, i, 2) && char_at_exec(s, i, 3, ':') {
        2
    } else if digit_at_exec(s, i, 1) && char_at_exec(s, i, 2, ':') {
        1
    } else {
        0
    }
}

fn fraction_digits_exec(s: &Vec<char>, p: usize) -> (r: usize)
    requires
        p <= s@.len(),
    ensures
        r == fraction_digits(s@, p as int),
{
    if char_at_exec(s, p, 0, '.') || char_at_exec(s, p, 0, ':') {
        if digit_at_exec(s, p, 1) && digit_at_exec(s, p, 2) && digit_at_exec(s, p, 3)
            && char_at_exec(s, p, 4, ']') {
            3
        } else if digit_at_exec(s, p, 1) && digit_at_exec(s, p, 2) && char_at_exec(s, p, 3, ']') {
            2
        } else if digit_at_exec(s, p, 1) && char_at_exec(s, p, 2, ']') {
            1
        } else {
            0
        }
    } else {
        0
    }
}

/// The length of the time tag at `s[i]`, or 0 when none starts there.
fn tag_len_exec(s: &Vec<char>, i: usize) -> (r: usize)
    requires
        i < s@.len(),
    ensures
        r == tag_len(s@, i as int),
        r > 0 ==> i + r <= s@.len(),
{
    if s[i] != '[' {
        return 0;
    }
    let m = minute_digits_exec(s, i);
    if m == 0 {
        return 0;
    }
    assert(i + m + 1 < s@.len());
    assert(i + m + 1 < s.len());
    let q = i + m + 2;
    if !(digit_at_exec(s, q, 0) && digit_at_exec(s, q, 1)) {
        return 0;
    }
    let p = q + 2;
    let f = fraction_digits_exec(s, p);
    if f > 0 {
        p + f + 2 - i
    } else if char_at_exec(s, p, 0, ']') {
        p + 1 - i
    } else {
        0
    }
}

fn digits_value_exec(s: &Vec<char>, k: usize, n: usize) -> (r: u32)
    requires
        1 <= n <= 3,
        k + n <= s@.len(),
    ensures
        r == digits_value(s@, k as int, n as int),
        r < 1000,
{
    assert(k + n <= s.len());
    let end = k + n;
    let mut j: usize = k;
    while j < end
        invariant
            end == k + n,
            k <= j <= k + n,
            k + n <= s@.len(),
            forall|i: int| k <= i < j ==> is_digit(#[trigger] s@[i]),
        decreases k + n - j,
    {
        if !('0' <= s[j] && s[j] <= '9') {
            return 0;
        }
        j = j + 1;
    }
    assert(ascii_digits(s@, k as int, n as int));
    if n == 1 {
        digit_value(s[k])
    } else if n == 2 {
        digit_value(s[k]) * 10 + digit_value(s[k + 1])
    } else {
        digit_value(s[k]) * 100 + digit_value(s[k + 1]) * 10 + digit_value(s[k + 2])
    }
}

/// The time in milliseconds of the time tag at `s[i]`.
fn tag_ms_exec(s: &Vec<char>, i: usize) -> (r: u32)
    requires
        i < s@.len(),
        tag_len(s@, i as int) > 0,
    ensures
        r == tag_ms(s@, i as int),
{
    let m = minute_digits_exec(s, i);
    assert(i + m + 1 < s@.len());
    assert(i + m + 1 < s.len());
    let q = i + m + 2;
    assert(q + 1 < s@.len());
    let p = q + 2;
    let f = fraction_digits_exec(s, p);
    assert(f > 0 ==> p + f + 1 < s@.len());
    let minutes = digits_value_exec(s, i + 1, m);
    let seconds = digits_value_exec(s, q, 2);
    let frac = if f == 0 {
        0
    } else if f == 1 {
        digits_value_exec(s, p + 1, 1) * 100
    } else if f == 2 {
        digits_value_exec(s, p + 1, 2) * 10
    } else {
        digits_value_exec(s, p + 1, 3)
    };
    assert(minutes < 100 && seconds < 100);
    (minutes * 60 + seconds) * 1000 + frac
}

/// `s` with its time tags removed.
fn strip_tags_exec(s: &Vec<char>) -> (r: Vec<char>)
    ensures
        r@ == strip_tags(s@, 0),
{
    let mut out: Vec<char> = Vec::new();
    let mut j: usize = 0;
    while j < s.len()
        invariant
            j <= s@.len(),
            out@ + strip_tags(s@, j as int) == strip_tags(s@, 0),
        decreases s@.len() - j,
    {
        let t = tag_len_exec(s, j);
        if t > 0 {
            j = j + t;
        } else {
            let ghost before = out@;
            out.push(s[j]);
            assert(before + strip_tags(s@, j as int) =~= out@ + strip_tags(s@, j + 1));
            j = j + 1;
        }
    }
    assert(out@ + strip_tags(s@, j as int) =~= out@);
    out
}

/// Appends to `raw` the lyric lines of one line of LRC text.
fn push_line_entries(raw: &mut Vec<LyricLine>, line: &Vec<char>)
    ensures
        lines_view(final(raw)@) == lines_view(old(raw)@) + line_entries(line@),
{
    let stripped = strip_tags_exec(line);
    let (a, b) = trim_bounds(&stripped, 0, stripped.len());
    assert(stripped@.subrange(0, stripped@.len() as int) =~= stripped@);
    let text = string_of(&stripped, a, b);
    let ghost base = lines_view(raw@);
    let mut j: usize = 0;
    while j < line.len()
        invariant
            j <= line@.len(),
            text@ == trim(strip_tags(line@, 0)),
            lines_view(raw@) + tag_entries(line@, j as int, text@) == base + tag_entries(line@, 0, text@),
        decreases line@.len() - j,
    {
        let t = tag_len_exec(line, j);
        if t > 0 {
            let ms = tag_ms_exec(line, j);
            let ghost before = lines_view(raw@);
            let entry = LyricLine { start_ms: Some(ms), text: text.clone(), translation: None, romanization: None };
            raw.push(entry);
            proof {
                assert(lines_view(raw@) =~= before.push(entry@));
                assert(before + tag_entries(line@, j as int, text@) =~= lines_view(raw@) + tag_entries(
                    line@,
                    j + t,
                    text@,
                ));
            }
            j = j + t;
        } else {
            j = j + 1;
        }
    }
    assert(lines_view(raw@) + tag_entries(line@, j as int, text@) =~= lines_view(raw@));
}

/// The index of the first line feed at or after `i`, or the length.
fn line_end_exec(s: &Vec<char>, i: usize) -> (r: usize)
    requires
        i <= s@.len(),
    ensures
        r == line_end(s@, i as int),
        i <= r <= s@.len(),
{
    let mut k = i;
    while k < s.len() && s[k] != '\n'
        invariant
            i <= k <= s@.len(),
            line_end(s@, k as int) == line_end(s@, i as int),
        decreases s@.len() - k,
    {
        k = k + 1;
    }
    k
}

/// A copy of `s[from..to]`.
fn copy_range(s: &Vec<char>, from: usize, to: usize) -> (r: Vec<char>)
    requires
        from <= to <= s@.len(),
    ensures
        r@ == s@.subrange(from as int, to as int),
{
    let mut out: Vec<char> = Vec::new();
    let mut k = from;
    while k < to
        invariant
            from <= k <= to <= s@.len(),
            out@ == s@.subrange(from as int, k as int),
        decreases to - k,
    {
        out.push(s[k]);
        k = k + 1;
        assert(out@ =~= s@.subrange(from as int, k as int));
    }
    out
}

/// The lyric lines of LRC text, ordered by start time.
pub fn parse_lrc(input: &str) -> (out: Vec<LyricLine>)
    ensures
        lines_view(out@) == lrc_lines(input@),
        sorted_by_start(lines_view(out@)),
        lines_view(out@).to_multiset() == lrc_entries(input@, 0).to_multiset(),
{
    let s = chars_of(input);
    let n = s.len();
    let mut raw: Vec<LyricLine> = Vec::new();
    let mut i: usize = 0;
    while i < n
        invariant
            n == s@.len(),
            s@ == input@,
            i <= n,
            lines_view(raw@) + lrc_entries(s@, i as int) == lrc_entries(s@, 0),
        decreases n - i,
    {
        let e = line_end_exec(&s, i);
        let ce = if e < n && e > i && s[e - 1] == '\r' {
            e - 1
        } else {
            e
        };
        let line = copy_range(&s, i, ce);
        let ghost before = lines_view(raw@);
        push_line_entries(&mut raw, &line);
        let next = if e < n {
            e + 1
        } else {
            n
        };
        proof {
            assert(line@ =~= line_at(s@, i as int));
            assert(lrc_entries(s@, (e + 1) as int) == lrc_entries(s@, next as int));
            assert(before + lrc_entries(s@, i as int) =~= lines_view(raw@) + lrc_entries(s@, next as int));
        }
        i = next;
    }
    assert(lines_view(raw@) + lrc_entries(s@, i as int) =~= lines_view(raw@));
    proof {
        lemma_sort_by_start_sorted(lines_view(raw@));
        lemma_sort_by_start_permutes(lines_view(raw@));
    }
    sort_lines(raw)
}

/// The lines of `input`, as `str::lines` gives them.
pub fn split_lines(input: &str) -> (out: Vec<String>)
    ensures
        out@.map_values(|l: String| l@) == text_lines(input@, 0),
{
    let s = chars_of(input);
    let n = s.len();
    let mut out: Vec<String> = Vec::new();
    let mut i: usize = 0;
    while i < n
        invariant
            n == s@.len(),
            s@ == input@,
            i <= n,
            out@.map_values(|l: String| l@) + text_lines(s@, i as int) == text_lines(s@, 0),
        decreases n - i,
    {
        let e = line_end_exec(&s, i);
        let ce = if e < n && e > i && s[e - 1] == '\r' {
            e - 1
        } else {
            e
        };
        let line = string_of(&s, i, ce);
        let ghost before = out@.map_values(|l: String| l@);
        out.push(line);
        let next = if e < n {
            e + 1
        } else {
            n
        };
        proof {
            assert(line@ =~= line_at(s@, i as int));
            assert(out@.map_values(|l: String| l@) =~= before.push(line@));
            assert(text_lines(s@, (e + 1) as int) == text_lines(s@, next as int));
            assert(before + text_lines(s@, i as int) =~= out@.map_values(|l: String| l@) + text_lines(
                s@,
                next as int,
            ));
        }
        i = next;
    }
    assert(out@.map_values(|l: String| l@) + text_lines(s@, i as int) =~= out@.map_values(|l: String| l@));
    out
}

} // verus!
