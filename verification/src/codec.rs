//! The on-disk record format for a guild's configuration: a JSON object of
//! the shape `{"c":{"KEY":CHANNEL,...}}`, where each key is a short event key
//! and each channel is a decimal 64-bit channel identifier.
//!
//! Both directions are implemented here and specified against each other: an
//! encoder producing the canonical form, and a parser accepting the grammar
//! (the canonical form plus interior whitespace). The parser is total on
//! `&str` and rejects everything outside the grammar.

use vstd::prelude::*;

use crate::assoc;

verus! {

// ===== characters =====

/// JSON insignificant whitespace.
pub open spec fn is_ws_char(c: char) -> bool {
    c == ' ' || c == '\t' || c == '\n' || c == '\r'
}

/// A decimal digit.
pub open spec fn is_digit_char(c: char) -> bool {
    48 <= c as u32 <= 57
}

/// The numeric value of a decimal digit.
pub open spec fn digit_val(c: char) -> int {
    c as u32 - 48
}

/// A character that may appear in a key without escaping: printable ASCII
/// other than the quote and the backslash.
pub open spec fn is_key_char(c: char) -> bool {
    32 <= c as u32 <= 126 && c != '"' && c != '\\'
}

/// A key the canonical encoding can hold: printable ASCII, nothing that
/// would need a JSON escape sequence.
pub open spec fn valid_key(k: Seq<char>) -> bool {
    forall|i: int| 0 <= i < k.len() ==> is_key_char(#[trigger] k[i])
}

// ===== decimal numbers =====

/// The digit character for a value below ten.
pub open spec fn digit_char(d: int) -> char {
    if d == 0 {
        '0'
    } else if d == 1 {
        '1'
    } else if d == 2 {
        '2'
    } else if d == 3 {
        '3'
    } else if d == 4 {
        '4'
    } else if d == 5 {
        '5'
    } else if d == 6 {
        '6'
    } else if d == 7 {
        '7'
    } else if d == 8 {
        '8'
    } else {
        '9'
    }
}

/// The decimal digits of `n`, most significant first, with no leading zero
/// (except for `n == 0`, written as a single `'0'`).
pub open spec fn dec_digits(n: nat) -> Seq<char>
    decreases n,
{
    if n < 10 {
        seq![digit_char(n as int)]
    } else {
        dec_digits(n / 10).push(digit_char((n % 10) as int))
    }
}

/// Every character of a decimal rendering is a digit.
pub proof fn lemma_dec_digits_are_digits(n: nat)
    ensures
        dec_digits(n).len() >= 1,
        forall|i: int| 0 <= i < dec_digits(n).len() ==> is_digit_char(#[trigger] dec_digits(n)[i]),
    decreases n,
{
    if n >= 10 {
        lemma_dec_digits_are_digits(n / 10);
    }
}

/// Writes `n` in decimal.
pub fn u64_to_string(n: u64) -> (r: String)
    ensures
        r@ == dec_digits(n as nat),
    decreases n,
{
    let d: &'static str = match n % 10 {
        0 => "0",
        1 => "1",
        2 => "2",
        3 => "3",
        4 => "4",
        5 => "5",
        6 => "6",
        7 => "7",
        8 => "8",
        _ => "9",
    };
    proof {
        reveal_strlit("0");
        reveal_strlit("1");
        reveal_strlit("2");
        reveal_strlit("3");
        reveal_strlit("4");
        reveal_strlit("5");
        reveal_strlit("6");
        reveal_strlit("7");
        reveal_strlit("8");
        reveal_strlit("9");
        assert(d@ == seq![digit_char((n % 10) as int)]);
    }
    if n < 10 {
        d.to_owned()
    } else {
        let mut r = u64_to_string(n / 10);
        r.append(d);
        proof {
            assert(r@ == dec_digits(n as nat));
        }
        r
    }
}

/// The decimal rendering of a signed value: a minus sign before the digits
/// of the magnitude for a negative one, the digits alone otherwise.
pub open spec fn int_digits(n: int) -> Seq<char> {
    if n < 0 {
        seq!['-'] + dec_digits((-n) as nat)
    } else {
        dec_digits(n as nat)
    }
}

/// Writes `n` in decimal, with a minus sign where it is negative.
pub fn i64_to_string(n: i64) -> (r: String)
    ensures
        r@ == int_digits(n as int),
{
    if n >= 0 {
        u64_to_string(n as u64)
    } else {
        let mag: u64 = ((-(n + 1)) as u64) + 1;
        proof {
            assert(mag as int == -(n as int));
        }
        let mut r = "-".to_owned();
        let digits = u64_to_string(mag);
        r.append(digits.as_str());
        proof {
            reveal_strlit("-");
            assert(r@ =~= seq!['-'] + dec_digits(mag as nat));
        }
        r
    }
}

// ===== the grammar, as spec-level recursive descent =====
//
// Each spec parser takes the whole text and a position, and returns the
// parsed value together with the position just after it, or `None` where the
// text does not match. Positions at or beyond the end never match.

/// The first position at or after `i` holding no whitespace.
pub open spec fn ws_end(s: Seq<char>, i: int) -> int
    decreases s.len() - i,
{
    if 0 <= i < s.len() && is_ws_char(s[i]) {
        ws_end(s, i + 1)
    } else {
        i
    }
}

pub proof fn lemma_ws_end_bounds(s: Seq<char>, i: int)
    requires
        0 <= i <= s.len(),
    ensures
        i <= ws_end(s, i) <= s.len(),
    decreases s.len() - i,
{
    if i < s.len() && is_ws_char(s[i]) {
        lemma_ws_end_bounds(s, i + 1);
    }
}

/// The first position at or after `i` holding no decimal digit.
pub open spec fn digits_end(s: Seq<char>, i: int) -> int
    decreases s.len() - i,
{
    if 0 <= i < s.len() && is_digit_char(s[i]) {
        digits_end(s, i + 1)
    } else {
        i
    }
}

pub proof fn lemma_digits_end_bounds(s: Seq<char>, i: int)
    requires
        0 <= i <= s.len(),
    ensures
        i <= digits_end(s, i) <= s.len(),
    decreases s.len() - i,
{
    if i < s.len() && is_digit_char(s[i]) {
        lemma_digits_end_bounds(s, i + 1);
    }
}

/// The first position at or after `i` holding no key character.
pub open spec fn key_end(s: Seq<char>, i: int) -> int
    decreases s.len() - i,
{
    if 0 <= i < s.len() && is_key_char(s[i]) {
        key_end(s, i + 1)
    } else {
        i
    }
}

pub proof fn lemma_key_end_bounds(s: Seq<char>, i: int)
    requires
        0 <= i <= s.len(),
    ensures
        i <= key_end(s, i) <= s.len(),
    decreases s.len() - i,
{
    if i < s.len() && is_key_char(s[i]) {
        lemma_key_end_bounds(s, i + 1);
    }
}

/// The value of the digit run `s[i .. j)`, read as a decimal number.
pub open spec fn num_val(s: Seq<char>, i: int, j: int) -> int
    decreases j - i,
{
    if j <= i {
        0
    } else {
        num_val(s, i, j - 1) * 10 + digit_val(s[j - 1])
    }
}

/// A decimal number: a run of digits with no leading zero, whose value fits
/// in a 64-bit unsigned integer.
pub open spec fn parse_number(s: Seq<char>, i: int) -> Option<(u64, int)> {
    let j = digits_end(s, i);
    if j == i {
        None
    } else if s[i] == '0' && j > i + 1 {
        None
    } else if num_val(s, i, j) > u64::MAX {
        None
    } else {
        Some((num_val(s, i, j) as u64, j))
    }
}

pub proof fn lemma_parse_number_progress(s: Seq<char>, i: int)
    requires
        0 <= i <= s.len(),
        parse_number(s, i) is Some,
    ensures
        i < parse_number(s, i).unwrap().1 <= s.len(),
{
    lemma_digits_end_bounds(s, i);
}

/// A quoted key: a quote, a run of key characters, a quote.
pub open spec fn parse_string(s: Seq<char>, i: int) -> Option<(Seq<char>, int)> {
    if 0 <= i < s.len() && s[i] == '"' {
        let j = key_end(s, i + 1);
        if j < s.len() && s[j] == '"' {
            Some((s.subrange(i + 1, j), j + 1))
        } else {
            None
        }
    } else {
        None
    }
}

pub proof fn lemma_parse_string_progress(s: Seq<char>, i: int)
    requires
        parse_string(s, i) is Some,
    ensures
        0 <= i,
        i + 2 <= parse_string(s, i).unwrap().1 <= s.len(),
        valid_key(parse_string(s, i).unwrap().0),
{
    lemma_key_end_bounds(s, i + 1);
    let j = key_end(s, i + 1);
    lemma_key_end_chars(s, i + 1);
    assert forall|t: int| 0 <= t < j - i - 1 implies is_key_char(
        #[trigger] s.subrange(i + 1, j)[t],
    ) by {
        assert(s.subrange(i + 1, j)[t] == s[i + 1 + t]);
    }
}

/// Everything a scan for key characters passed over is a key character.
pub proof fn lemma_key_end_chars(s: Seq<char>, i: int)
    requires
        0 <= i <= s.len(),
    ensures
        forall|t: int| i <= t < key_end(s, i) ==> is_key_char(#[trigger] s[t]),
    decreases s.len() - i,
{
    if i < s.len() && is_key_char(s[i]) {
        lemma_key_end_chars(s, i + 1);
    }
}

/// One `"key": value` pair.
pub open spec fn parse_pair(s: Seq<char>, i: int) -> Option<((Seq<char>, u64), int)> {
    match parse_string(s, i) {
        None => None,
        Some((k, j)) => {
            let j1 = ws_end(s, j);
            if j1 < s.len() && s[j1] == ':' {
                let j2 = ws_end(s, j1 + 1);
                match parse_number(s, j2) {
                    None => None,
                    Some((v, j3)) => Some(((k, v), j3)),
                }
            } else {
                None
            }
        },
    }
}

pub proof fn lemma_parse_pair_progress(s: Seq<char>, i: int)
    requires
        parse_pair(s, i) is Some,
    ensures
        0 <= i,
        i < parse_pair(s, i).unwrap().1 <= s.len(),
        valid_key(parse_pair(s, i).unwrap().0.0),
{
    lemma_parse_string_progress(s, i);
    let (k, j) = parse_string(s, i).unwrap();
    lemma_ws_end_bounds(s, j);
    let j1 = ws_end(s, j);
    lemma_ws_end_bounds(s, j1 + 1);
    let j2 = ws_end(s, j1 + 1);
    lemma_parse_number_progress(s, j2);
}

/// A non-empty, comma-separated run of pairs, up to and including the
/// closing brace of the inner object. Repeated keys do not match.
pub open spec fn parse_pair_list(s: Seq<char>, i: int) -> Option<(Seq<(Seq<char>, u64)>, int)>
    decreases s.len() - i,
{
    match parse_pair(s, i) {
        None => None,
        Some((kv, j)) => {
            let j1 = ws_end(s, j);
            if j1 < s.len() && s[j1] == ',' {
                proof {
                    lemma_parse_pair_progress(s, i);
                    lemma_ws_end_bounds(s, j);
                    lemma_ws_end_bounds(s, j1 + 1);
                }
                match parse_pair_list(s, ws_end(s, j1 + 1)) {
                    None => None,
                    Some((rest, j2)) => {
                        if assoc::keys_contain(rest, kv.0) {
                            None
                        } else {
                            Some((seq![kv] + rest, j2))
                        }
                    },
                }
            } else if j1 < s.len() && s[j1] == '}' {
                Some((seq![kv], j1 + 1))
            } else {
                None
            }
        },
    }
}

/// The inner object: `{}`, or `{` pairs `}`.
pub open spec fn parse_inner(s: Seq<char>, i: int) -> Option<(Seq<(Seq<char>, u64)>, int)> {
    if 0 <= i < s.len() && s[i] == '{' {
        let j = ws_end(s, i + 1);
        if j < s.len() && s[j] == '}' {
            Some((Seq::empty(), j + 1))
        } else {
            parse_pair_list(s, j)
        }
    } else {
        None
    }
}

/// The whole record: an object holding exactly the key `"c"`, whose value is
/// the inner object of channel entries; nothing but whitespace around it.
pub open spec fn parse_config(s: Seq<char>) -> Option<Seq<(Seq<char>, u64)>> {
    let i0 = ws_end(s, 0);
    if i0 < s.len() && s[i0] == '{' {
        let i1 = ws_end(s, i0 + 1);
        match parse_string(s, i1) {
            None => None,
            Some((k, i2)) => {
                if k =~= seq!['c'] {
                    let i3 = ws_end(s, i2);
                    if i3 < s.len() && s[i3] == ':' {
                        let i4 = ws_end(s, i3 + 1);
                        match parse_inner(s, i4) {
                            None => None,
                            Some((es, i5)) => {
                                let i6 = ws_end(s, i5);
                                if i6 < s.len() && s[i6] == '}' && ws_end(s, i6 + 1) == s.len() {
                                    Some(es)
                                } else {
                                    None
                                }
                            },
                        }
                    } else {
                        None
                    }
                } else {
                    None
                }
            },
        }
    } else {
        None
    }
}

// ===== the canonical encoding =====

/// The canonical encoding of one entry: `"key":value`.
pub open spec fn encode_pair(k: Seq<char>, v: u64) -> Seq<char> {
    seq!['"'] + k + seq!['"', ':'] + dec_digits(v as nat)
}

/// The canonical encoding of the entries, comma-separated.
pub open spec fn encode_pairs(es: Seq<(Seq<char>, u64)>) -> Seq<char>
    decreases es.len(),
{
    if es.len() == 0 {
        Seq::empty()
    } else if es.len() == 1 {
        encode_pair(es[0].0, es[0].1)
    } else {
        encode_pair(es[0].0, es[0].1) + seq![','] + encode_pairs(es.skip(1))
    }
}

/// The canonical encoding of a whole record.
pub open spec fn encode_config(es: Seq<(Seq<char>, u64)>) -> Seq<char> {
    seq!['{', '"', 'c', '"', ':', '{'] + encode_pairs(es) + seq!['}', '}']
}

/// The character-level view of a vector of owned entries.
pub open spec fn entry_views(pairs: Seq<(String, u64)>) -> Seq<(Seq<char>, u64)> {
    pairs.map_values(|p: (String, u64)| (p.0@, p.1))
}

/// The comma-separated encoding, taken apart at its last entry instead of
/// its first.
pub proof fn lemma_encode_pairs_snoc(es: Seq<(Seq<char>, u64)>)
    requires
        es.len() >= 1,
    ensures
        encode_pairs(es) == if es.len() == 1 {
            encode_pair(es[0].0, es[0].1)
        } else {
            encode_pairs(es.drop_last()) + seq![','] + encode_pair(es.last().0, es.last().1)
        },
    decreases es.len(),
{
    if es.len() > 1 {
        lemma_encode_pairs_snoc(es.skip(1));
        assert(es.skip(1).drop_last() =~= es.drop_last().skip(1));
        assert(es.skip(1).last() == es.last());
        if es.len() == 2 {
            assert(es.drop_last().len() == 1);
            assert(encode_pairs(es.drop_last()) == encode_pair(es[0].0, es[0].1));
            assert(encode_pairs(es) == encode_pair(es[0].0, es[0].1) + seq![','] + encode_pairs(
                es.skip(1),
            ));
            assert(encode_pairs(es.skip(1)) == encode_pair(es.skip(1)[0].0, es.skip(1)[0].1));
            assert(es.skip(1)[0] == es.last());
            assert(encode_pairs(es) =~= encode_pairs(es.drop_last()) + seq![','] + encode_pair(
                es.last().0,
                es.last().1,
            ));
        } else {
            assert(es.drop_last().len() >= 2);
            assert(encode_pairs(es.drop_last()) == encode_pair(es.drop_last()[0].0,
                es.drop_last()[0].1,
            ) + seq![','] + encode_pairs(es.drop_last().skip(1)));
            assert(es.drop_last()[0] == es[0]);
            assert(encode_pairs(es) =~= encode_pairs(es.drop_last()) + seq![','] + encode_pair(
                es.last().0,
                es.last().1,
            ));
        }
    }
}

/// Writes the canonical encoding of the given entries.
pub fn encode(pairs: &Vec<(String, u64)>) -> (r: String)
    ensures
        r@ == encode_config(entry_views(pairs@)),
{
    let ghost es = entry_views(pairs@);
    let mut out = String::new();
    out.append("{\"c\":{");
    proof {
        reveal_strlit("{\"c\":{");
        assert(out@ =~= seq!['{', '"', 'c', '"', ':', '{']);
    }
    let mut idx: usize = 0;
    while idx < pairs.len()
        invariant
            idx <= pairs.len(),
            es == entry_views(pairs@),
            out@ == seq!['{', '"', 'c', '"', ':', '{'] + encode_pairs(es.take(idx as int)),
        decreases pairs.len() - idx,
    {
        if idx > 0 {
            out.append(",");
            proof {
                reveal_strlit(",");
            }
        }
        out.append("\"");
        out.append(pairs[idx].0.as_str());
        out.append("\":");
        let num = u64_to_string(pairs[idx].1);
        out.append(num.as_str());
        proof {
            reveal_strlit("\"");
            reveal_strlit("\":");
            assert(es[idx as int] == (pairs@[idx as int].0@, pairs@[idx as int].1));
            lemma_encode_pairs_snoc(es.take(idx as int + 1));
            assert(es.take(idx as int + 1).drop_last() =~= es.take(idx as int));
            assert(es.take(idx as int + 1).last() == es[idx as int]);
            if idx == 0 {
                assert(out@ =~= seq!['{', '"', 'c', '"', ':', '{'] + encode_pairs(
                    es.take(idx as int + 1),
                ));
            } else {
                assert(out@ =~= seq!['{', '"', 'c', '"', ':', '{'] + encode_pairs(
                    es.take(idx as int + 1),
                ));
            }
        }
        idx = idx + 1;
    }
    out.append("}}");
    proof {
        reveal_strlit("}}");
        assert(es.take(pairs@.len() as int) =~= es);
        assert(out@ =~= encode_config(es));
    }
    out
}

// ===== facts about parse results =====

/// Every key of `es` satisfies `valid_key`.
pub open spec fn valid_keys(es: Seq<(Seq<char>, u64)>) -> bool {
    forall|a: int| 0 <= a < es.len() ==> valid_key(#[trigger] es[a].0)
}

pub proof fn lemma_parse_pair_list_sound(s: Seq<char>, i: int)
    requires
        parse_pair_list(s, i) is Some,
    ensures
        0 <= i,
        i < parse_pair_list(s, i).unwrap().1 <= s.len(),
        assoc::distinct_keys(parse_pair_list(s, i).unwrap().0),
        valid_keys(parse_pair_list(s, i).unwrap().0),
        parse_pair_list(s, i).unwrap().0.len() >= 1,
    decreases s.len() - i,
{
    let (kv, j) = parse_pair(s, i).unwrap();
    lemma_parse_pair_progress(s, i);
    let j1 = ws_end(s, j);
    lemma_ws_end_bounds(s, j);
    if j1 < s.len() && s[j1] == ',' {
        lemma_ws_end_bounds(s, j1 + 1);
        let i2 = ws_end(s, j1 + 1);
        lemma_parse_pair_list_sound(s, i2);
        let (rest, _) = parse_pair_list(s, i2).unwrap();
        let es = parse_pair_list(s, i).unwrap().0;
        assert(es == seq![kv] + rest);
        assert(es[0] == kv);
        assert(forall|t: int| 0 < t < es.len() ==> es[t] == rest[t - 1]);
        assert forall|a: int, b: int| 0 <= a < b < es.len() implies es[a].0 != es[b].0 by {
            if a == 0 {
                assert(!assoc::keys_contain(rest, kv.0));
                assert(es[b] == rest[b - 1]);
            }
        }
    }
}

pub proof fn lemma_parse_inner_sound(s: Seq<char>, i: int)
    requires
        parse_inner(s, i) is Some,
    ensures
        0 <= i,
        i < parse_inner(s, i).unwrap().1 <= s.len(),
        assoc::distinct_keys(parse_inner(s, i).unwrap().0),
        valid_keys(parse_inner(s, i).unwrap().0),
{
    let j = ws_end(s, i + 1);
    lemma_ws_end_bounds(s, i + 1);
    if !(j < s.len() && s[j] == '}') {
        lemma_parse_pair_list_sound(s, j);
    }
}

/// Whatever the record parser accepts has pairwise distinct, encodable keys.
pub proof fn lemma_parse_config_sound(s: Seq<char>)
    requires
        parse_config(s) is Some,
    ensures
        assoc::distinct_keys(parse_config(s).unwrap()),
        valid_keys(parse_config(s).unwrap()),
{
    let i0 = ws_end(s, 0);
    let i1 = ws_end(s, i0 + 1);
    let (k, i2) = parse_string(s, i1).unwrap();
    let i3 = ws_end(s, i2);
    let i4 = ws_end(s, i3 + 1);
    lemma_parse_inner_sound(s, i4);
}

// ===== the executable parser =====

fn ws_char(c: char) -> (r: bool)
    ensures
        r == is_ws_char(c),
{
    c == ' ' || c == '\t' || c == '\n' || c == '\r'
}

fn digit_char_test(c: char) -> (r: bool)
    ensures
        r == is_digit_char(c),
{
    let u = c as u32;
    48 <= u && u <= 57
}

fn key_char_test(c: char) -> (r: bool)
    ensures
        r == is_key_char(c),
{
    let u = c as u32;
    32 <= u && u <= 126 && c != '"' && c != '\\'
}

fn scan_ws(s: &str, n: usize, i: usize) -> (r: usize)
    requires
        n == s@.len(),
        i <= n,
    ensures
        r as int == ws_end(s@, i as int),
        i <= r <= n,
{
    let mut j = i;
    loop
        invariant
            i <= j <= n,
            n == s@.len(),
            ws_end(s@, i as int) == ws_end(s@, j as int),
        decreases n - j,
    {
        if j == n {
            return j;
        }
        let c = s.get_char(j);
        if !ws_char(c) {
            return j;
        }
        j = j + 1;
    }
}

fn scan_digits(s: &str, n: usize, i: usize) -> (r: usize)
    requires
        n == s@.len(),
        i <= n,
    ensures
        r as int == digits_end(s@, i as int),
        i <= r <= n,
{
    let mut j = i;
    loop
        invariant
            i <= j <= n,
            n == s@.len(),
            digits_end(s@, i as int) == digits_end(s@, j as int),
        decreases n - j,
    {
        if j == n {
            return j;
        }
        let c = s.get_char(j);
        if !digit_char_test(c) {
            return j;
        }
        j = j + 1;
    }
}

fn scan_key(s: &str, n: usize, i: usize) -> (r: usize)
    requires
        n == s@.len(),
        i <= n,
    ensures
        r as int == key_end(s@, i as int),
        i <= r <= n,
{
    let mut j = i;
    loop
        invariant
            i <= j <= n,
            n == s@.len(),
            key_end(s@, i as int) == key_end(s@, j as int),
        decreases n - j,
    {
        if j == n {
            return j;
        }
        let c = s.get_char(j);
        if !key_char_test(c) {
            return j;
        }
        j = j + 1;
    }
}

/// Everything a scan for digits passed over is a digit.
proof fn lemma_digits_end_chars(s: Seq<char>, i: int)
    requires
        0 <= i <= s.len(),
    ensures
        forall|t: int| i <= t < digits_end(s, i) ==> is_digit_char(#[trigger] s[t]),
    decreases s.len() - i,
{
    if i < s.len() && is_digit_char(s[i]) {
        lemma_digits_end_chars(s, i + 1);
    }
}

/// Appending digits never shrinks the value of a digit run.
proof fn lemma_num_val_monotone(s: Seq<char>, i: int, k: int, j: int)
    requires
        i <= k <= j,
        forall|t: int| i <= t < j ==> is_digit_char(#[trigger] s[t]),
    ensures
        0 <= num_val(s, i, k) <= num_val(s, i, j),
    decreases j - k,
{
    if k == j {
        lemma_num_val_nonneg(s, i, k);
    } else {
        lemma_num_val_monotone(s, i, k, j - 1);
    }
}

proof fn lemma_num_val_nonneg(s: Seq<char>, i: int, j: int)
    requires
        forall|t: int| i <= t < j ==> is_digit_char(#[trigger] s[t]),
    ensures
        num_val(s, i, j) >= 0,
    decreases j - i,
{
    if j > i {
        lemma_num_val_nonneg(s, i, j - 1);
    }
}

fn parse_number_exec(s: &str, n: usize, i: usize) -> (r: Option<(u64, usize)>)
    requires
        n == s@.len(),
        i <= n,
    ensures
        match (r, parse_number(s@, i as int)) {
            (Some(p), Some(q)) => p.0 == q.0 && p.1 as int == q.1,
            (None, None) => true,
            _ => false,
        },
{
    let j = scan_digits(s, n, i);
    proof {
        lemma_digits_end_chars(s@, i as int);
    }
    if j == i {
        return None;
    }
    if s.get_char(i) == '0' && j > i + 1 {
        return None;
    }
    let mut k = i;
    let mut val: u64 = 0;
    while k < j
        invariant
            i <= k <= j,
            n == s@.len(),
            i < j <= n,
            j as int == digits_end(s@, i as int),
            forall|t: int| i <= t < j ==> is_digit_char(#[trigger] s@[t]),
            val == num_val(s@, i as int, k as int),
        decreases j - k,
    {
        let c = s.get_char(k);
        let d = (c as u32 - 48) as u64;
        if val > (u64::MAX - d) / 10 {
            proof {
                assert((u64::MAX - d) / 10 * 10 + (u64::MAX - d) % 10 == u64::MAX - d);
                assert(val * 10 + d > u64::MAX);
                assert(num_val(s@, i as int, k as int + 1) == val * 10 + d);
                lemma_num_val_monotone(s@, i as int, k as int + 1, j as int);
            }
            return None;
        }
        proof {
            assert((u64::MAX - d) / 10 * 10 + (u64::MAX - d) % 10 == u64::MAX - d);
            assert(val * 10 + d <= u64::MAX);
        }
        val = val * 10 + d;
        k = k + 1;
    }
    Some((val, j))
}

fn parse_string_exec(s: &str, n: usize, i: usize) -> (r: Option<(String, usize)>)
    requires
        n == s@.len(),
        i <= n,
    ensures
        match (r, parse_string(s@, i as int)) {
            (Some(p), Some(q)) => p.0@ == q.0 && p.1 as int == q.1,
            (None, None) => true,
            _ => false,
        },
{
    if i < n && s.get_char(i) == '"' {
        let j = scan_key(s, n, i + 1);
        if j < n && s.get_char(j) == '"' {
            let k = s.substring_char(i + 1, j).to_owned();
            Some((k, j + 1))
        } else {
            None
        }
    } else {
        None
    }
}

fn parse_pair_exec(s: &str, n: usize, i: usize) -> (r: Option<((String, u64), usize)>)
    requires
        n == s@.len(),
        i <= n,
    ensures
        match (r, parse_pair(s@, i as int)) {
            (Some(p), Some(q)) => p.0.0@ == q.0.0 && p.0.1 == q.0.1 && p.1 as int == q.1,
            (None, None) => true,
            _ => false,
        },
{
    match parse_string_exec(s, n, i) {
        None => None,
        Some((k, j)) => {
            proof {
                lemma_parse_string_progress(s@, i as int);
            }
            let j1 = scan_ws(s, n, j);
            if j1 < n && s.get_char(j1) == ':' {
                let j2 = scan_ws(s, n, j1 + 1);
                match parse_number_exec(s, n, j2) {
                    None => None,
                    Some((v, j3)) => Some(((k, v), j3)),
                }
            } else {
                None
            }
        },
    }
}

fn parse_pair_list_exec(s: &str, n: usize, i: usize) -> (r: Option<(Vec<(String, u64)>, usize)>)
    requires
        n == s@.len(),
        i <= n,
    ensures
        match (r, parse_pair_list(s@, i as int)) {
            (Some(p), Some(q)) => entry_views(p.0@) == q.0 && p.1 as int == q.1,
            (None, None) => true,
            _ => false,
        },
    decreases n - i,
{
    match parse_pair_exec(s, n, i) {
        None => None,
        Some((kv, j)) => {
            proof {
                lemma_parse_pair_progress(s@, i as int);
                lemma_ws_end_bounds(s@, j as int);
            }
            let j1 = scan_ws(s, n, j);
            if j1 < n && s.get_char(j1) == ',' {
                let j1p = scan_ws(s, n, j1 + 1);
                match parse_pair_list_exec(s, n, j1p) {
                    None => None,
                    Some((rest, j2)) => {
                        let mut t: usize = 0;
                        let mut dup = false;
                        while t < rest.len()
                            invariant
                                t <= rest.len(),
                                dup == assoc::keys_contain(
                                    entry_views(rest@).take(t as int),
                                    kv.0@,
                                ),
                            decreases rest.len() - t,
                        {
                            if rest[t].0 == kv.0 {
                                dup = true;
                                proof {
                                    assert(entry_views(rest@).take(t as int + 1)[t as int].0
                                        == kv.0@);
                                }
                            } else {
                                proof {
                                    let ev = entry_views(rest@);
                                    if assoc::keys_contain(ev.take(t as int + 1), kv.0@) {
                                        let q = choose|q: int|
                                            0 <= q < t as int + 1 && (#[trigger] ev.take(
                                                t as int + 1,
                                            )[q]).0 == kv.0@;
                                        if q == t as int {
                                            assert(rest@[t as int].0@ == kv.0@);
                                        } else {
                                            assert(ev.take(t as int)[q].0 == kv.0@);
                                        }
                                    }
                                }
                            }
                            t = t + 1;
                        }
                        proof {
                            assert(entry_views(rest@).take(rest@.len() as int) =~= entry_views(
                                rest@,
                            ));
                        }
                        if dup {
                            None
                        } else {
                            let mut out = rest;
                            out.insert(0, kv);
                            proof {
                                assert(entry_views(out@) =~= seq![
                                    (kv.0@, kv.1),
                                ] + entry_views(rest@));
                            }
                            Some((out, j2))
                        }
                    },
                }
            } else if j1 < n && s.get_char(j1) == '}' {
                let mut v: Vec<(String, u64)> = Vec::new();
                v.push(kv);
                proof {
                    assert(entry_views(v@) =~= seq![(kv.0@, kv.1)]);
                }
                Some((v, j1 + 1))
            } else {
                None
            }
        },
    }
}

fn parse_inner_exec(s: &str, n: usize, i: usize) -> (r: Option<(Vec<(String, u64)>, usize)>)
    requires
        n == s@.len(),
        i <= n,
    ensures
        match (r, parse_inner(s@, i as int)) {
            (Some(p), Some(q)) => entry_views(p.0@) == q.0 && p.1 as int == q.1,
            (None, None) => true,
            _ => false,
        },
{
    if i < n && s.get_char(i) == '{' {
        let j = scan_ws(s, n, i + 1);
        if j < n && s.get_char(j) == '}' {
            let v: Vec<(String, u64)> = Vec::new();
            proof {
                assert(entry_views(v@) =~= Seq::<(Seq<char>, u64)>::empty());
            }
            Some((v, j + 1))
        } else {
            parse_pair_list_exec(s, n, j)
        }
    } else {
        None
    }
}

/// Reads a record in the on-disk format. Returns the channel entries, or
/// `None` where the text is not in the grammar.
pub fn decode(s: &str) -> (r: Option<Vec<(String, u64)>>)
    ensures
        match (r, parse_config(s@)) {
            (Some(v), Some(es)) => entry_views(v@) == es,
            (None, None) => true,
            _ => false,
        },
{
    let n = s.unicode_len();
    let i0 = scan_ws(s, n, 0);
    if !(i0 < n && s.get_char(i0) == '{') {
        return None;
    }
    let i1 = scan_ws(s, n, i0 + 1);
    match parse_string_exec(s, n, i1) {
        None => None,
        Some((k, i2)) => {
            proof {
                lemma_parse_string_progress(s@, i1 as int);
                reveal_strlit("c");
            }
            let c_key = "c".to_owned();
            proof {
                assert(c_key@ =~= seq!['c']);
            }
            if !(k == c_key) {
                proof {
                    assert(!(k@ =~= seq!['c']));
                }
                return None;
            }
            proof {
                assert(k@ =~= seq!['c']);
            }
            let i3 = scan_ws(s, n, i2);
            if !(i3 < n && s.get_char(i3) == ':') {
                return None;
            }
            let i4 = scan_ws(s, n, i3 + 1);
            match parse_inner_exec(s, n, i4) {
                None => None,
                Some((es, i5)) => {
                    proof {
                        lemma_parse_inner_sound(s@, i4 as int);
                    }
                    let i6 = scan_ws(s, n, i5);
                    if i6 < n && s.get_char(i6) == '}' {
                        let i7 = scan_ws(s, n, i6 + 1);
                        if i7 == n {
                            Some(es)
                        } else {
                            None
                        }
                    } else {
                        None
                    }
                },
            }
        },
    }
}

// ===== the round trip: the parser accepts the canonical encoding =====

proof fn lemma_key_end_at(s: Seq<char>, i: int, k: Seq<char>)
    requires
        0 <= i,
        i + k.len() <= s.len(),
        valid_key(k),
        s.subrange(i, i + k.len()) == k,
        i + k.len() == s.len() || !is_key_char(s[i + k.len()]),
    ensures
        key_end(s, i) == i + k.len(),
    decreases k.len(),
{
    if k.len() == 0 {
    } else {
        assert(s[i] == k[0]);
        assert(is_key_char(s[i]));
        assert(s.subrange(i + 1, i + k.len()) =~= k.skip(1));
        lemma_key_end_at(s, i + 1, k.skip(1));
    }
}

proof fn lemma_parse_string_at(s: Seq<char>, i: int, k: Seq<char>)
    requires
        0 <= i,
        i + k.len() + 2 <= s.len(),
        valid_key(k),
        s.subrange(i, i + k.len() + 2) == seq!['"'] + k + seq!['"'],
    ensures
        parse_string(s, i) == Some((k, i + k.len() + 2)),
{
    assert(s[i] == (seq!['"'] + k + seq!['"'])[0]);
    assert(s[i] == '"');
    assert(s.subrange(i + 1, i + 1 + k.len()) =~= k) by {
        assert forall|t: int| 0 <= t < k.len() implies s.subrange(i + 1, i + 1 + k.len())[t]
            == k[t] by {
            assert(s[i + 1 + t] == s.subrange(i, i + k.len() + 2)[1 + t]);
        }
    }
    assert(s[i + 1 + k.len()] == (seq!['"'] + k + seq!['"'])[k.len() as int + 1]);
    assert(s[i + 1 + k.len()] == '"');
    assert(!is_key_char('"'));
    lemma_key_end_at(s, i + 1, k);
    let j = key_end(s, i + 1);
    assert(j == i + 1 + k.len());
    assert(j < s.len());
    assert(s.subrange(i + 1, j) =~= k);
}

proof fn lemma_digits_end_at(s: Seq<char>, i: int, ds: Seq<char>)
    requires
        0 <= i,
        i + ds.len() <= s.len(),
        forall|t: int| 0 <= t < ds.len() ==> is_digit_char(#[trigger] ds[t]),
        s.subrange(i, i + ds.len()) == ds,
        i + ds.len() == s.len() || !is_digit_char(s[i + ds.len()]),
    ensures
        digits_end(s, i) == i + ds.len(),
    decreases ds.len(),
{
    if ds.len() == 0 {
    } else {
        assert(s[i] == ds[0]);
        assert(s.subrange(i + 1, i + ds.len()) =~= ds.skip(1));
        lemma_digits_end_at(s, i + 1, ds.skip(1));
    }
}

proof fn lemma_num_val_at(s: Seq<char>, i: int, v: u64)
    requires
        0 <= i,
        i + dec_digits(v as nat).len() <= s.len(),
        s.subrange(i, i + dec_digits(v as nat).len()) == dec_digits(v as nat),
    ensures
        num_val(s, i, i + dec_digits(v as nat).len()) == v,
    decreases v,
{
    let ds = dec_digits(v as nat);
    let j = i + ds.len();
    if v < 10 {
        assert(ds == seq![digit_char(v as int)]);
        assert(s[i] == s.subrange(i, i + ds.len())[0]);
        assert(s[i] == digit_char(v as int));
        assert(num_val(s, i, j) == num_val(s, i, j - 1) * 10 + digit_val(s[j - 1]));
        assert(digit_val(digit_char(v as int)) == v);
    } else {
        let hi = v / 10;
        let ds_hi = dec_digits(hi as nat);
        assert(ds == ds_hi.push(digit_char((v % 10) as int)));
        assert(s.subrange(i, i + ds_hi.len()) =~= ds_hi);
        lemma_num_val_at(s, i, hi);
        assert(s[j - 1] == ds[ds.len() - 1]);
        assert(s[j - 1] == digit_char((v % 10) as int));
        assert(num_val(s, i, j) == num_val(s, i, j - 1) * 10 + digit_val(s[j - 1]));
        assert(digit_val(digit_char((v % 10) as int)) == v % 10);
        assert(num_val(s, i, j) == (v / 10) * 10 + v % 10);
        assert((v / 10) * 10 + v % 10 == v);
    }
}

/// The decimal rendering of a positive number does not begin with a zero.
proof fn lemma_dec_digits_first(n: nat)
    requires
        n >= 1,
    ensures
        dec_digits(n)[0] != '0',
    decreases n,
{
    if n >= 10 {
        lemma_dec_digits_first(n / 10);
        assert(dec_digits(n)[0] == dec_digits(n / 10)[0]);
    }
}

proof fn lemma_parse_number_at(s: Seq<char>, i: int, v: u64)
    requires
        0 <= i,
        i + dec_digits(v as nat).len() <= s.len(),
        s.subrange(i, i + dec_digits(v as nat).len()) == dec_digits(v as nat),
        i + dec_digits(v as nat).len() == s.len() || !is_digit_char(
            s[i + dec_digits(v as nat).len()],
        ),
    ensures
        parse_number(s, i) == Some((v, i + dec_digits(v as nat).len())),
{
    let ds = dec_digits(v as nat);
    let j = i + ds.len();
    lemma_dec_digits_are_digits(v as nat);
    lemma_digits_end_at(s, i, ds);
    assert(digits_end(s, i) == j);
    assert(j > i);
    lemma_num_val_at(s, i, v);
    assert(num_val(s, i, j) == v);
    assert(s[i] == ds[0]);
    if v == 0 {
        assert(ds.len() == 1);
    } else {
        lemma_dec_digits_first(v as nat);
        assert(s[i] != '0');
    }
}

proof fn lemma_parse_pair_at(s: Seq<char>, i: int, k: Seq<char>, v: u64)
    requires
        0 <= i,
        i + encode_pair(k, v).len() <= s.len(),
        valid_key(k),
        s.subrange(i, i + encode_pair(k, v).len()) == encode_pair(k, v),
        i + encode_pair(k, v).len() == s.len() || !is_digit_char(s[i + encode_pair(k, v).len()]),
    ensures
        parse_pair(s, i) == Some(((k, v), i + encode_pair(k, v).len())),
{
    let e = encode_pair(k, v);
    let ds = dec_digits(v as nat);
    let klen = k.len() as int;
    assert(e.len() == klen + 3 + ds.len());
    assert(s.subrange(i, i + klen + 2) =~= seq!['"'] + k + seq!['"']) by {
        assert forall|t: int| 0 <= t < klen + 2 implies s.subrange(i, i + klen + 2)[t] == (
        seq!['"'] + k + seq!['"'])[t] by {
            assert(s[i + t] == e[t]);
        }
    }
    lemma_parse_string_at(s, i, k);
    let j = i + klen + 2;
    assert(s[j] == e[klen + 2]);
    assert(s[j] == ':');
    assert(!is_ws_char(':'));
    assert(ws_end(s, j) == j);
    lemma_dec_digits_are_digits(v as nat);
    assert(s[j + 1] == e[klen + 3]);
    assert(s[j + 1] == ds[0]);
    assert(is_digit_char(ds[0]));
    assert(!is_ws_char(s[j + 1])) by {
        assert(is_digit_char(s[j + 1]));
    }
    assert(ws_end(s, j + 1) == j + 1);
    assert(s.subrange(j + 1, j + 1 + ds.len()) =~= ds) by {
        assert forall|t: int| 0 <= t < ds.len() implies s.subrange(j + 1, j + 1 + ds.len())[t]
            == ds[t] by {
            assert(s[j + 1 + t] == e[klen + 3 + t]);
        }
    }
    lemma_parse_number_at(s, j + 1, v);
    assert(parse_number(s, j + 1) == Some((v, i + e.len())));
}

/// The first character of the encoding of a non-empty entry list.
proof fn lemma_encode_pairs_first(es: Seq<(Seq<char>, u64)>)
    requires
        es.len() >= 1,
    ensures
        encode_pairs(es).len() >= 1,
        encode_pairs(es)[0] == '"',
{
    assert(encode_pair(es[0].0, es[0].1)[0] == '"');
}

proof fn lemma_parse_pair_list_at(s: Seq<char>, i: int, es: Seq<(Seq<char>, u64)>)
    requires
        0 <= i,
        es.len() >= 1,
        assoc::distinct_keys(es),
        valid_keys(es),
        i + encode_pairs(es).len() + 1 <= s.len(),
        s.subrange(i, i + encode_pairs(es).len() + 1) == encode_pairs(es) + seq!['}'],
    ensures
        parse_pair_list(s, i) == Some((es, i + encode_pairs(es).len() + 1)),
    decreases es.len(),
{
    let p = encode_pairs(es);
    let e0 = encode_pair(es[0].0, es[0].1);
    if es.len() == 1 {
        assert(p == e0);
        assert(s.subrange(i, i + e0.len()) =~= e0) by {
            assert forall|t: int| 0 <= t < e0.len() implies s.subrange(i, i + e0.len())[t]
                == e0[t] by {
                assert(s[i + t] == (p + seq!['}'])[t]);
            }
        }
        assert(s[i + e0.len()] == (p + seq!['}'])[e0.len() as int]);
        assert(s[i + e0.len()] == '}');
        assert(!is_digit_char('}'));
        lemma_parse_pair_at(s, i, es[0].0, es[0].1);
        let j = i + e0.len();
        assert(ws_end(s, j) == j) by {
            assert(!is_ws_char('}'));
        }
        assert(parse_pair_list(s, i) == Some((seq![(es[0].0, es[0].1)], j + 1)));
        assert(seq![(es[0].0, es[0].1)] =~= es);
    } else {
        let rest = es.skip(1);
        let pr = encode_pairs(rest);
        assert(p == e0 + seq![','] + pr);
        assert(s.subrange(i, i + e0.len()) =~= e0) by {
            assert forall|t: int| 0 <= t < e0.len() implies s.subrange(i, i + e0.len())[t]
                == e0[t] by {
                assert(s[i + t] == (p + seq!['}'])[t]);
            }
        }
        let j = i + e0.len();
        assert(s[j] == (p + seq!['}'])[e0.len() as int]);
        assert(s[j] == ',');
        assert(!is_digit_char(','));
        lemma_parse_pair_at(s, i, es[0].0, es[0].1);
        assert(ws_end(s, j) == j) by {
            assert(!is_ws_char(','));
        }
        lemma_encode_pairs_first(rest);
        assert(s[j + 1] == (p + seq!['}'])[e0.len() as int + 1]);
        assert(s[j + 1] == pr[0]);
        assert(s[j + 1] == '"');
        assert(ws_end(s, j + 1) == j + 1) by {
            assert(!is_ws_char('"'));
        }
        assert(s.subrange(j + 1, j + 1 + pr.len() + 1) =~= pr + seq!['}']) by {
            assert forall|t: int| 0 <= t < pr.len() + 1 implies s.subrange(
                j + 1,
                j + 1 + pr.len() + 1,
            )[t] == (pr + seq!['}'])[t] by {
                assert(s[j + 1 + t] == (p + seq!['}'])[e0.len() + 1 + t]);
            }
        }
        assert(assoc::distinct_keys(rest) && valid_keys(rest)) by {
            assert(forall|t: int| 0 <= t < rest.len() ==> rest[t] == es[t + 1]);
        }
        lemma_parse_pair_list_at(s, j + 1, rest);
        assert(parse_pair_list(s, j + 1) == Some((rest, i + p.len() + 1)));
        assert(!assoc::keys_contain(rest, es[0].0)) by {
            if assoc::keys_contain(rest, es[0].0) {
                let t = choose|t: int| 0 <= t < rest.len() && (#[trigger] rest[t]).0 == es[0].0;
                assert(es[t + 1].0 == es[0].0);
            }
        }
        assert(seq![(es[0].0, es[0].1)] + rest =~= es);
    }
}

/// The parser reads the canonical encoding back to exactly the entries it
/// was written from.
pub proof fn lemma_parse_encode(es: Seq<(Seq<char>, u64)>)
    requires
        assoc::distinct_keys(es),
        valid_keys(es),
    ensures
        parse_config(encode_config(es)) == Some(es),
{
    let h = seq!['{', '"', 'c', '"', ':', '{'];
    let p = encode_pairs(es);
    let plen = p.len() as int;
    let t = encode_config(es);
    assert(t == h + p + seq!['}', '}']);
    assert(t.len() == plen + 8);
    assert(t[0] == '{');
    assert(ws_end(t, 0) == 0) by {
        assert(!is_ws_char('{'));
    }
    assert(t[1] == '"');
    assert(ws_end(t, 1) == 1) by {
        assert(!is_ws_char('"'));
    }
    assert(t.subrange(1, 4) =~= seq!['"'] + seq!['c'] + seq!['"']);
    assert(valid_key(seq!['c']));
    lemma_parse_string_at(t, 1, seq!['c']);
    assert(parse_string(t, 1) == Some((seq!['c'], 4int)));
    assert(t[4] == ':');
    assert(ws_end(t, 4) == 4) by {
        assert(!is_ws_char(':'));
    }
    assert(t[5] == '{');
    assert(ws_end(t, 5) == 5) by {
        assert(!is_ws_char('{'));
    }
    let close = plen + 6;
    if es.len() == 0 {
        assert(p.len() == 0);
        assert(t[6] == '}');
        assert(ws_end(t, 6) == 6) by {
            assert(!is_ws_char('}'));
        }
        assert(parse_inner(t, 5) == Some((Seq::<(Seq<char>, u64)>::empty(), 7int)));
        assert(Seq::<(Seq<char>, u64)>::empty() =~= es);
        assert(t[7] == '}');
        assert(ws_end(t, 7) == 7) by {
            assert(!is_ws_char('}'));
        }
        assert(ws_end(t, 8) == 8);
        assert(parse_config(t) == Some(es));
    } else {
        lemma_encode_pairs_first(es);
        assert(t[6] == p[0]);
        assert(t[6] == '"');
        assert(ws_end(t, 6) == 6) by {
            assert(!is_ws_char('"'));
        }
        assert(t.subrange(6, 7 + plen) =~= p + seq!['}']) by {
            assert forall|q: int| 0 <= q < plen + 1 implies t.subrange(6, 7 + plen)[q]
                == (p + seq!['}'])[q] by {
                if q < plen {
                    assert(t[6 + q] == p[q]);
                } else {
                    assert(t[6 + q] == '}');
                }
            }
        }
        lemma_parse_pair_list_at(t, 6, es);
        assert(parse_pair_list(t, 6) == Some((es, close + 1)));
        assert(parse_inner(t, 5) == Some((es, close + 1)));
        assert(t[close + 1] == '}');
        assert(ws_end(t, close + 1) == close + 1) by {
            assert(!is_ws_char('}'));
        }
        assert(close + 2 == t.len());
        assert(ws_end(t, close + 2) == close + 2);
        assert(parse_config(t) == Some(es));
    }
}

} // verus!
