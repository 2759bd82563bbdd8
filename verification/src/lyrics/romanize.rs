//! Romanization of lyric lines: Hangul by Revised Romanization (syllable by
//! syllable, without assimilation between syllables), Chinese characters by
//! their plain pinyin readings.

use vstd::prelude::*;
use pinyin::ToPinyin;
use crate::text::{is_whitespace, is_ws, push_char};

verus! {

/// The initial consonant of a syllable, by its index.
pub open spec fn lead_spec(k: u32) -> Seq<char> {
    match k {
        0 => "g"@,
        1 => "kk"@,
        2 => "n"@,
        3 => "d"@,
        4 => "tt"@,
        5 => "r"@,
        6 => "m"@,
        7 => "b"@,
        8 => "pp"@,
        9 => "s"@,
        10 => "ss"@,
        11 => ""@,
        12 => "j"@,
        13 => "jj"@,
        14 => "ch"@,
        15 => "k"@,
        16 => "t"@,
        17 => "p"@,
        _ => "h"@,
    }
}

fn lead(k: u32) -> (r: &'static str)
    requires
        k < 19,
    ensures
        r@ == lead_spec(k),
{
    match k {
        0 => "g",
        1 => "kk",
        2 => "n",
        3 => "d",
        4 => "tt",
        5 => "r",
        6 => "m",
        7 => "b",
        8 => "pp",
        9 => "s",
        10 => "ss",
        11 => "",
        12 => "j",
        13 => "jj",
        14 => "ch",
        15 => "k",
        16 => "t",
        17 => "p",
        _ => "h",
    }
}

/// The vowel of a syllable, by its index.
pub open spec fn vowel_spec(k: u32) -> Seq<char> {
    match k {
        0 => "a"@,
        1 => "ae"@,
        2 => "ya"@,
        3 => "yae"@,
        4 => "eo"@,
        5 => "e"@,
        6 => "yeo"@,
        7 => "ye"@,
        8 => "o"@,
        9 => "wa"@,
        10 => "wae"@,
        11 => "oe"@,
        12 => "yo"@,
        13 => "u"@,
        14 => "wo"@,
        15 => "we"@,
        16 => "wi"@,
        17 => "yu"@,
        18 => "eu"@,
        19 => "ui"@,
        _ => "i"@,
    }
}

fn vowel(k: u32) -> (r: &'static str)
    requires
        k < 21,
    ensures
        r@ == vowel_spec(k),
{
    match k {
        0 => "a",
        1 => "ae",
        2 => "ya",
        3 => "yae",
        4 => "eo",
        5 => "e",
        6 => "yeo",
        7 => "ye",
        8 => "o",
        9 => "wa",
        10 => "wae",
        11 => "oe",
        12 => "yo",
        13 => "u",
        14 => "wo",
        15 => "we",
        16 => "wi",
        17 => "yu",
        18 => "eu",
        19 => "ui",
        _ => "i",
    }
}

/// The final consonant of a syllable, by its index (0: none).
pub open spec fn tail_spec(k: u32) -> Seq<char> {
    match k {
        0 => ""@,
        1 => "k"@,
        2 => "k"@,
        3 => "k"@,
        4 => "n"@,
        5 => "n"@,
        6 => "n"@,
        7 => "t"@,
        8 => "l"@,
        9 => "l"@,
        10 => "l"@,
        11 => "l"@,
        12 => "l"@,
        13 => "l"@,
        14 => "l"@,
        15 => "l"@,
        16 => "m"@,
        17 => "p"@,
        18 => "p"@,
        19 => "t"@,
        20 => "t"@,
        21 => "ng"@,
        22 => "t"@,
        23 => "t"@,
        24 => "k"@,
        25 => "t"@,
        26 => "p"@,
        _ => "t"@,
    }
}

fn tail(k: u32) -> (r: &'static str)
    requires
        k < 28,
    ensures
        r@ == tail_spec(k),
{
    match k {
        0 => "",
        1 => "k",
        2 => "k",
        3 => "k",
        4 => "n",
        5 => "n",
        6 => "n",
        7 => "t",
        8 => "l",
        9 => "l",
        10 => "l",
        11 => "l",
        12 => "l",
        13 => "l",
        14 => "l",
        15 => "l",
        16 => "m",
        17 => "p",
        18 => "p",
        19 => "t",
        20 => "t",
        21 => "ng",
        22 => "t",
        23 => "t",
        24 => "k",
        25 => "t",
        26 => "p",
        _ => "t",
    }
}


/// The Revised Romanization of the 19 initial consonants, in Unicode order.
pub open spec fn rr_leads() -> Seq<Seq<char>> {
    seq![
        seq!['g'],
        seq!['k', 'k'],
        seq!['n'],
        seq!['d'],
        seq!['t', 't'],
        seq!['r'],
        seq!['m'],
        seq!['b'],
        seq!['p', 'p'],
        seq!['s'],
        seq!['s', 's'],
        Seq::<char>::empty(),
        seq!['j'],
        seq!['j', 'j'],
        seq!['c', 'h'],
        seq!['k'],
        seq!['t'],
        seq!['p'],
        seq!['h'],
    ]
}

/// The Revised Romanization of the 21 medial vowels, in Unicode order.
pub open spec fn rr_vowels() -> Seq<Seq<char>> {
    seq![
        seq!['a'],
        seq!['a', 'e'],
        seq!['y', 'a'],
        seq!['y', 'a', 'e'],
        seq!['e', 'o'],
        seq!['e'],
        seq!['y', 'e', 'o'],
        seq!['y', 'e'],
        seq!['o'],
        seq!['w', 'a'],
        seq!['w', 'a', 'e'],
        seq!['o', 'e'],
        seq!['y', 'o'],
        seq!['u'],
        seq!['w', 'o'],
        seq!['w', 'e'],
        seq!['w', 'i'],
        seq!['y', 'u'],
        seq!['e', 'u'],
        seq!['u', 'i'],
        seq!['i'],
    ]
}

/// The Revised Romanization of the 28 finals (the first: none), in Unicode order.
pub open spec fn rr_tails() -> Seq<Seq<char>> {
    seq![
        Seq::<char>::empty(),
        seq!['k'],
        seq!['k'],
        seq!['k'],
        seq!['n'],
        seq!['n'],
        seq!['n'],
        seq!['t'],
        seq!['l'],
        seq!['l'],
        seq!['l'],
        seq!['l'],
        seq!['l'],
        seq!['l'],
        seq!['l'],
        seq!['l'],
        seq!['m'],
        seq!['p'],
        seq!['p'],
        seq!['t'],
        seq!['t'],
        seq!['n', 'g'],
        seq!['t'],
        seq!['t'],
        seq!['k'],
        seq!['t'],
        seq!['p'],
        seq!['t'],
    ]
}

/// `lead_spec` gives the romanization of each initial consonant.
proof fn lemma_lead_table(k: int)
    requires
        0 <= k < 19,
    ensures
        lead_spec(k as u32) == rr_leads()[k],
{
    reveal_strlit("");
    reveal_strlit("b");
    reveal_strlit("ch");
    reveal_strlit("d");
    reveal_strlit("g");
    reveal_strlit("h");
    reveal_strlit("j");
    reveal_strlit("jj");
    reveal_strlit("k");
    reveal_strlit("kk");
    reveal_strlit("m");
    reveal_strlit("n");
    reveal_strlit("p");
    reveal_strlit("pp");
    reveal_strlit("r");
    reveal_strlit("s");
    reveal_strlit("ss");
    reveal_strlit("t");
    reveal_strlit("tt");
    if k == 0 {
        assert(lead_spec(0) == rr_leads()[0]);
    } else if k == 1 {
        assert(lead_spec(1) == rr_leads()[1]);
    } else if k == 2 {
        assert(lead_spec(2) == rr_leads()[2]);
    } else if k == 3 {
        assert(lead_spec(3) == rr_leads()[3]);
    } else if k == 4 {
        assert(lead_spec(4) == rr_leads()[4]);
    } else if k == 5 {
        assert(lead_spec(5) == rr_leads()[5]);
    } else if k == 6 {
        assert(lead_spec(6) == rr_leads()[6]);
    } else if k == 7 {
        assert(lead_spec(7) == rr_leads()[7]);
    } else if k == 8 {
        assert(lead_spec(8) == rr_leads()[8]);
    } else if k == 9 {
        assert(lead_spec(9) == rr_leads()[9]);
    } else if k == 10 {
        assert(lead_spec(10) == rr_leads()[10]);
    } else if k == 11 {
        assert(lead_spec(11) == rr_leads()[11]);
    } else if k == 12 {
        assert(lead_spec(12) == rr_leads()[12]);
    } else if k == 13 {
        assert(lead_spec(13) == rr_leads()[13]);
    } else if k == 14 {
        assert(lead_spec(14) == rr_leads()[14]);
    } else if k == 15 {
        assert(lead_spec(15) == rr_leads()[15]);
    } else if k == 16 {
        assert(lead_spec(16) == rr_leads()[16]);
    } else if k == 17 {
        assert(lead_spec(17) == rr_leads()[17]);
    } else if k == 18 {
        assert(lead_spec(18) == rr_leads()[18]);
    }
}

/// `vowel_spec` gives the romanization of each medial vowel.
proof fn lemma_vowel_table(k: int)
    requires
        0 <= k < 21,
    ensures
        vowel_spec(k as u32) == rr_vowels()[k],
{
    reveal_strlit("a");
    reveal_strlit("ae");
    reveal_strlit("e");
    reveal_strlit("eo");
    reveal_strlit("eu");
    reveal_strlit("i");
    reveal_strlit("o");
    reveal_strlit("oe");
    reveal_strlit("u");
    reveal_strlit("ui");
    reveal_strlit("wa");
    reveal_strlit("wae");
    reveal_strlit("we");
    reveal_strlit("wi");
    reveal_strlit("wo");
    reveal_strlit("ya");
    reveal_strlit("yae");
    reveal_strlit("ye");
    reveal_strlit("yeo");
    reveal_strlit("yo");
    reveal_strlit("yu");
    if k == 0 {
        assert(vowel_spec(0) == rr_vowels()[0]);
    } else if k == 1 {
        assert(vowel_spec(1) == rr_vowels()[1]);
    } else if k == 2 {
        assert(vowel_spec(2) == rr_vowels()[2]);
    } else if k == 3 {
        assert(vowel_spec(3) == rr_vowels()[3]);
    } else if k == 4 {
        assert(vowel_spec(4) == rr_vowels()[4]);
    } else if k == 5 {
        assert(vowel_spec(5) == rr_vowels()[5]);
    } else if k == 6 {
        assert(vowel_spec(6) == rr_vowels()[6]);
    } else if k == 7 {
        assert(vowel_spec(7) == rr_vowels()[7]);
    } else if k == 8 {
        assert(vowel_spec(8) == rr_vowels()[8]);
    } else if k == 9 {
        assert(vowel_spec(9) == rr_vowels()[9]);
    } else if k == 10 {
        assert(vowel_spec(10) == rr_vowels()[10]);
    } else if k == 11 {
        assert(vowel_spec(11) == rr_vowels()[11]);
    } else if k == 12 {
        assert(vowel_spec(12) == rr_vowels()[12]);
    } else if k == 13 {
        assert(vowel_spec(13) == rr_vowels()[13]);
    } else if k == 14 {
        assert(vowel_spec(14) == rr_vowels()[14]);
    } else if k == 15 {
        assert(vowel_spec(15) == rr_vowels()[15]);
    } else if k == 16 {
        assert(vowel_spec(16) == rr_vowels()[16]);
    } else if k == 17 {
        assert(vowel_spec(17) == rr_vowels()[17]);
    } else if k == 18 {
        assert(vowel_spec(18) == rr_vowels()[18]);
    } else if k == 19 {
        assert(vowel_spec(19) == rr_vowels()[19]);
    } else if k == 20 {
        assert(vowel_spec(20) == rr_vowels()[20]);
    }
}

/// `tail_spec` gives the romanization of each final.
proof fn lemma_tail_table(k: int)
    requires
        0 <= k < 28,
    ensures
        tail_spec(k as u32) == rr_tails()[k],
{
    reveal_strlit("");
    reveal_strlit("k");
    reveal_strlit("l");
    reveal_strlit("m");
    reveal_strlit("n");
    reveal_strlit("ng");
    reveal_strlit("p");
    reveal_strlit("t");
    if k == 0 {
        assert(tail_spec(0) == rr_tails()[0]);
    } else if k == 1 {
        assert(tail_spec(1) == rr_tails()[1]);
    } else if k == 2 {
        assert(tail_spec(2) == rr_tails()[2]);
    } else if k == 3 {
        assert(tail_spec(3) == rr_tails()[3]);
    } else if k == 4 {
        assert(tail_spec(4) == rr_tails()[4]);
    } else if k == 5 {
        assert(tail_spec(5) == rr_tails()[5]);
    } else if k == 6 {
        assert(tail_spec(6) == rr_tails()[6]);
    } else if k == 7 {
        assert(tail_spec(7) == rr_tails()[7]);
    } else if k == 8 {
        assert(tail_spec(8) == rr_tails()[8]);
    } else if k == 9 {
        assert(tail_spec(9) == rr_tails()[9]);
    } else if k == 10 {
        assert(tail_spec(10) == rr_tails()[10]);
    } else if k == 11 {
        assert(tail_spec(11) == rr_tails()[11]);
    } else if k == 12 {
        assert(tail_spec(12) == rr_tails()[12]);
    } else if k == 13 {
        assert(tail_spec(13) == rr_tails()[13]);
    } else if k == 14 {
        assert(tail_spec(14) == rr_tails()[14]);
    } else if k == 15 {
        assert(tail_spec(15) == rr_tails()[15]);
    } else if k == 16 {
        assert(tail_spec(16) == rr_tails()[16]);
    } else if k == 17 {
        assert(tail_spec(17) == rr_tails()[17]);
    } else if k == 18 {
        assert(tail_spec(18) == rr_tails()[18]);
    } else if k == 19 {
        assert(tail_spec(19) == rr_tails()[19]);
    } else if k == 20 {
        assert(tail_spec(20) == rr_tails()[20]);
    } else if k == 21 {
        assert(tail_spec(21) == rr_tails()[21]);
    } else if k == 22 {
        assert(tail_spec(22) == rr_tails()[22]);
    } else if k == 23 {
        assert(tail_spec(23) == rr_tails()[23]);
    } else if k == 24 {
        assert(tail_spec(24) == rr_tails()[24]);
    } else if k == 25 {
        assert(tail_spec(25) == rr_tails()[25]);
    } else if k == 26 {
        assert(tail_spec(26) == rr_tails()[26]);
    } else if k == 27 {
        assert(tail_spec(27) == rr_tails()[27]);
    }
}

/// The Hangul syllable of initial `l`, vowel `v` and final `t` (the code
/// point 0xAC00 + (l * 21 + v) * 28 + t) romanizes as the initial's, the
/// vowel's and the final's Revised Romanization, one after the other.
pub proof fn lemma_syllable_romanization(c: char, l: int, v: int, t: int)
    requires
        0 <= l < 19,
        0 <= v < 21,
        0 <= t < 28,
        c as int == 0xAC00 + (l * 21 + v) * 28 + t,
    ensures
        is_hangul(c),
        hangul_syllable(c) == rr_leads()[l] + rr_vowels()[v] + rr_tails()[t],
        romanization_of(seq![c]) == Some(rr_leads()[l] + rr_vowels()[v] + rr_tails()[t]),
{
    let i = c as int - 0xAC00;
    assert(i == l * 588 + (v * 28 + t)) by (nonlinear_arith)
        requires i == (l * 21 + v) * 28 + t;
    assert(0 <= v * 28 + t < 588) by (nonlinear_arith)
        requires 0 <= v < 21, 0 <= t < 28;
    assert(0 <= i <= 0xD7A3 - 0xAC00) by (nonlinear_arith)
        requires i == l * 588 + (v * 28 + t), 0 <= l < 19, 0 <= v * 28 + t < 588;
    vstd::arithmetic::div_mod::lemma_fundamental_div_mod_converse(i, 588, l, v * 28 + t);
    vstd::arithmetic::div_mod::lemma_fundamental_div_mod_converse(v * 28 + t, 28, v, t);
    assert(i == (l * 21 + v) * 28 + t);
    vstd::arithmetic::div_mod::lemma_fundamental_div_mod_converse(i, 28, l * 21 + v, t);
    lemma_lead_table(l);
    lemma_vowel_table(v);
    lemma_tail_table(t);
    let one = seq![c];
    assert(is_hangul(one[0]));
    assert(one.drop_last() =~= Seq::<char>::empty());
    assert(hangul_text(one.drop_last()) == Seq::<char>::empty());
    assert(one.last() == c);
    assert(hangul_char(c) == hangul_syllable(c));
    assert(hangul_text(one) =~= hangul_syllable(c));
}

/// A precomposed Hangul syllable.
pub open spec fn is_hangul(c: char) -> bool {
    '\u{AC00}' <= c && c <= '\u{D7A3}'
}

/// A CJK unified ideograph of the basic block.
pub open spec fn is_han(c: char) -> bool {
    '\u{4E00}' <= c && c <= '\u{9FFF}'
}

/// The romanization of a Hangul syllable.
pub open spec fn hangul_syllable(c: char) -> Seq<char> {
    let i = c as int - 0xAC00;
    lead_spec((i / 588) as u32) + vowel_spec(((i % 588) / 28) as u32) + tail_spec((i % 28) as u32)
}

/// What one character becomes in romanized Hangul text: a syllable is
/// romanized, white space becomes a space, anything else stays.
pub open spec fn hangul_char(c: char) -> Seq<char> {
    if is_hangul(c) {
        hangul_syllable(c)
    } else if !is_ws(c) {
        seq![c]
    } else {
        seq![' ']
    }
}

/// The romanization of Hangul text, character by character.
pub open spec fn hangul_text(s: Seq<char>) -> Seq<char>
    decreases s.len(),
{
    if s.len() == 0 {
        Seq::empty()
    } else {
        hangul_text(s.drop_last()) + hangul_char(s.last())
    }
}

/// The plain pinyin reading that the `pinyin` crate gives a character, if any.
pub uninterp spec fn plain_pinyin(c: char) -> Option<Seq<char>>;

/// `pinyin::ToPinyin::to_pinyin` on `c`, then `pinyin::Pinyin::plain`: a
/// lookup in the crate's tables. The contract names the reading and says
/// nothing of its letters.
#[verifier::external_body]
fn pinyin_reading(c: char) -> (r: Option<String>)
    ensures
        r.deep_view() == plain_pinyin(c),
{
    match c.to_pinyin() {
        Some(p) => Some(p.plain().to_string()),
        None => None,
    }
}

/// The words of text read as pinyin, given the reading of each character: a
/// character with a reading gives its reading, another one that is not white
/// space gives itself, white space gives nothing.
pub open spec fn pinyin_words(s: Seq<char>, readings: Seq<Option<Seq<char>>>) -> Seq<Seq<char>>
    decreases s.len(),
{
    if s.len() == 0 {
        Seq::empty()
    } else {
        let before = pinyin_words(s.drop_last(), readings.drop_last());
        match readings[s.len() - 1] {
            Some(p) => before.push(p),
            None => if is_ws(s.last()) {
                before
            } else {
                before.push(seq![s.last()])
            },
        }
    }
}

/// Words joined by single spaces.
pub open spec fn join_words(words: Seq<Seq<char>>) -> Seq<char>
    decreases words.len(),
{
    if words.len() == 0 {
        Seq::empty()
    } else if words.len() == 1 {
        words[0]
    } else {
        join_words(words.drop_last()) + seq![' '] + words.last()
    }
}

/// The readings of the characters of `s`, as the `pinyin` crate gives them.
pub open spec fn readings_of(s: Seq<char>) -> Seq<Option<Seq<char>>> {
    s.map_values(|c: char| plain_pinyin(c))
}

/// Whether the text holds a Hangul syllable.
pub fn has_hangul(s: &str) -> (r: bool)
    ensures
        r == exists|i: int| 0 <= i < s@.len() && is_hangul(#[trigger] s@[i]),
{
    let n = s.unicode_len();
    let mut i: usize = 0;
    while i < n
        invariant
            n == s@.len(),
            i <= n,
            forall|j: int| 0 <= j < i ==> !is_hangul(#[trigger] s@[j]),
        decreases n - i,
    {
        let c = s.get_char(i);
        if '\u{AC00}' <= c && c <= '\u{D7A3}' {
            return true;
        }
        i = i + 1;
    }
    false
}

/// Whether the text holds a Chinese character.
pub fn has_han(s: &str) -> (r: bool)
    ensures
        r == exists|i: int| 0 <= i < s@.len() && is_han(#[trigger] s@[i]),
{
    let n = s.unicode_len();
    let mut i: usize = 0;
    while i < n
        invariant
            n == s@.len(),
            i <= n,
            forall|j: int| 0 <= j < i ==> !is_han(#[trigger] s@[j]),
        decreases n - i,
    {
        let c = s.get_char(i);
        if '\u{4E00}' <= c && c <= '\u{9FFF}' {
            return true;
        }
        i = i + 1;
    }
    false
}

/// Romanizes Hangul text by Revised Romanization, syllable by syllable.
pub fn romanize_hangul(s: &str) -> (r: String)
    ensures
        r@ == hangul_text(s@),
{
    let n = s.unicode_len();
    let mut out = String::new();
    let mut i: usize = 0;
    while i < n
        invariant
            n == s@.len(),
            i <= n,
            out@ == hangul_text(s@.subrange(0, i as int)),
        decreases n - i,
    {
        let c = s.get_char(i);
        let ghost before = out@;
        if '\u{AC00}' <= c && c <= '\u{D7A3}' {
            let k: u32 = (c as u32) - 0xAC00;
            assert(k <= 11171);
            assert(k / 588 < 19) by (nonlinear_arith)
                requires
                    k <= 11171,
            ;
            assert((k % 588) / 28 < 21) by (nonlinear_arith);
            out.append(lead(k / 588));
            out.append(vowel((k % 588) / 28));
            out.append(tail(k % 28));
        } else if !is_whitespace(c) {
            push_char(&mut out, c);
        } else {
            push_char(&mut out, ' ');
        }
        proof {
            let t = s@.subrange(0, i + 1);
            assert(t.drop_last() =~= s@.subrange(0, i as int));
            assert(t.last() == c);
            assert(out@ =~= before + hangul_char(c));
        }
        i = i + 1;
    }
    assert(s@.subrange(0, n as int) =~= s@);
    out
}

/// Joins the pinyin words of `s`, given the reading of each of its characters.
pub fn join_pinyin(s: &str, readings: &Vec<Option<String>>) -> (r: String)
    requires
        readings@.len() == s@.len(),
    ensures
        r@ == join_words(pinyin_words(s@, readings@.map_values(|o: Option<String>| o.deep_view()))),
{
    let ghost rv = readings@.map_values(|o: Option<String>| o.deep_view());
    let n = s.unicode_len();
    let mut out = String::new();
    let mut count: usize = 0;
    let mut i: usize = 0;
    while i < n
        invariant
            n == s@.len(),
            readings@.len() == n,
            rv == readings@.map_values(|o: Option<String>| o.deep_view()),
            i <= n,
            count <= i,
            count == pinyin_words(s@.subrange(0, i as int), rv.subrange(0, i as int)).len(),
            out@ == join_words(pinyin_words(s@.subrange(0, i as int), rv.subrange(0, i as int))),
        decreases n - i,
    {
        let c = s.get_char(i);
        let ghost ws = pinyin_words(s@.subrange(0, i as int), rv.subrange(0, i as int));
        proof {
            let t = s@.subrange(0, i + 1);
            let tr = rv.subrange(0, i + 1);
            assert(t.drop_last() =~= s@.subrange(0, i as int));
            assert(tr.drop_last() =~= rv.subrange(0, i as int));
            assert(t.last() == c);
            assert(tr[i as int] == rv[i as int]);
            assert(rv[i as int] == readings@[i as int].deep_view());
        }
        match &readings[i] {
            Some(p) => {
                if count > 0 {
                    push_char(&mut out, ' ');
                }
                out.append(p.as_str());
                proof {
                    assert(ws.push(p@).drop_last() =~= ws);
                    if count > 0 {
                        assert(out@ =~= join_words(ws) + seq![' '] + p@);
                    } else {
                        assert(out@ =~= p@);
                    }
                }
                count = count + 1;
            },
            None => {
                if !is_whitespace(c) {
                    if count > 0 {
                        push_char(&mut out, ' ');
                    }
                    push_char(&mut out, c);
                    proof {
                        assert(ws.push(seq![c]).drop_last() =~= ws);
                        if count > 0 {
                            assert(out@ =~= join_words(ws) + seq![' '] + seq![c]);
                        } else {
                            assert(out@ =~= seq![c]);
                        }
                    }
                    count = count + 1;
                }
            },
        }
        i = i + 1;
    }
    assert(s@.subrange(0, n as int) =~= s@);
    assert(rv.subrange(0, n as int) =~= rv);
    out
}

/// Romanizes Chinese text as the plain pinyin readings of its characters,
/// separated by spaces.
pub fn romanize_pinyin(s: &str) -> (r: String)
    ensures
        r@ == join_words(pinyin_words(s@, readings_of(s@))),
{
    let n = s.unicode_len();
    let mut readings: Vec<Option<String>> = Vec::new();
    let mut i: usize = 0;
    while i < n
        invariant
            n == s@.len(),
            i <= n,
            readings@.len() == i,
            forall|j: int| 0 <= j < i ==> (#[trigger] readings@[j]).deep_view() == plain_pinyin(s@[j]),
        decreases n - i,
    {
        let reading = pinyin_reading(s.get_char(i));
        readings.push(reading);
        i = i + 1;
    }
    assert(readings@.map_values(|o: Option<String>| o.deep_view()) =~= readings_of(s@));
    join_pinyin(s, &readings)
}

/// The romanization of a lyric line: Hangul if it has any, else pinyin if it
/// has Chinese characters, else none.
pub open spec fn romanization_of(text: Seq<char>) -> Option<Seq<char>> {
    if exists|i: int| 0 <= i < text.len() && is_hangul(#[trigger] text[i]) {
        Some(hangul_text(text))
    } else if exists|i: int| 0 <= i < text.len() && is_han(#[trigger] text[i]) {
        Some(join_words(pinyin_words(text, readings_of(text))))
    } else {
        None
    }
}

/// Two Chinese characters with pinyin readings romanize as the two readings
/// with one space between them; white space without a reading between them
/// changes nothing.
pub proof fn lemma_pinyin_pair(c1: char, w: char, c2: char)
    requires
        is_han(c1),
        !is_hangul(c1),
        !is_hangul(c2),
        !is_hangul(w),
        plain_pinyin(c1) is Some,
        plain_pinyin(c2) is Some,
        plain_pinyin(w) is None,
        is_ws(w),
    ensures
        romanization_of(seq![c1, c2]) == Some(plain_pinyin(c1)->0 + seq![' '] + plain_pinyin(c2)->0),
        romanization_of(seq![c1, w, c2]) == romanization_of(seq![c1, c2]),
{
    let p1 = plain_pinyin(c1)->0;
    let p2 = plain_pinyin(c2)->0;
    let two = seq![c1, c2];
    let three = seq![c1, w, c2];
    assert(!(exists|i: int| 0 <= i < two.len() && is_hangul(#[trigger] two[i])));
    assert(!(exists|i: int| 0 <= i < three.len() && is_hangul(#[trigger] three[i]))) by {
        assert forall|i: int| 0 <= i < three.len() implies !is_hangul(#[trigger] three[i]) by {
            if i == 0 {} else if i == 1 {} else {}
        }
    }
    assert(is_han(two[0]) && is_han(three[0]));
    let r2 = readings_of(two);
    let r3 = readings_of(three);
    assert(r2.drop_last() =~= seq![plain_pinyin(c1)]);
    assert(two.drop_last() =~= seq![c1]);
    assert(seq![c1].drop_last() =~= Seq::<char>::empty());
    assert(seq![plain_pinyin(c1)].drop_last() =~= Seq::<Option<Seq<char>>>::empty());
    assert(pinyin_words(Seq::<char>::empty(), Seq::<Option<Seq<char>>>::empty()) == Seq::<Seq<char>>::empty());
    assert(pinyin_words(seq![c1], seq![plain_pinyin(c1)]) =~= seq![p1]);
    assert(pinyin_words(two, r2) =~= seq![p1, p2]);
    assert(three.drop_last() =~= seq![c1, w]);
    assert(r3.drop_last() =~= seq![plain_pinyin(c1), plain_pinyin(w)]);
    assert(seq![c1, w].drop_last() =~= seq![c1]);
    assert(seq![plain_pinyin(c1), plain_pinyin(w)].drop_last() =~= seq![plain_pinyin(c1)]);
    assert(pinyin_words(seq![c1, w], seq![plain_pinyin(c1), plain_pinyin(w)]) =~= seq![p1]);
    assert(pinyin_words(three, r3) =~= seq![p1, p2]);
    assert(seq![p1, p2].drop_last() =~= seq![p1]);
    assert(join_words(seq![p1]) == p1);
    assert(seq![p1, p2].last() == p2);
    assert(join_words(seq![p1, p2]) == p1 + seq![' '] + p2);
}

/// The romanization of a lyric line: Hangul if it has any, else pinyin if it
/// has Chinese characters, else none.
pub fn romanize_line(text: &str) -> (r: Option<String>)
    ensures
        r.deep_view() == romanization_of(text@),
{
    if has_hangul(text) {
        Some(romanize_hangul(text))
    } else if has_han(text) {
        Some(romanize_pinyin(text))
    } else {
        None
    }
}

} // verus!
