//! Operations on character sequences that the standard library's string
//! natives and the lexer use.
use vstd::prelude::*;
use crate::arith::in_i64;

verus! {

/// Unicode `White_Space`, as `char::is_whitespace` documents it.
pub open spec fn is_ws(c: char) -> bool {
    let u = c as u32;
    (0x9 <= u <= 0xD) || u == 0x20 || u == 0x85 || u == 0xA0 || u == 0x1680 || (0x2000 <= u <= 0x200A)
        || u == 0x2028 || u == 0x2029 || u == 0x202F || u == 0x205F || u == 0x3000
}

pub fn is_whitespace(c: char) -> (r: bool)
    ensures
        r == is_ws(c),
{
    let u = c as u32;
    (0x9 <= u && u <= 0xD) || u == 0x20 || u == 0x85 || u == 0xA0 || u == 0x1680 || (0x2000 <= u && u <= 0x200A)
        || u == 0x2028 || u == 0x2029 || u == 0x202F || u == 0x205F || u == 0x3000
}

/// The number of leading white-space characters.
pub open spec fn lead_ws(s: Seq<char>) -> nat
    decreases s.len(),
{
    if s.len() == 0 || !is_ws(s[0]) { 0 } else { 1 + lead_ws(s.drop_first()) }
}

/// The number of trailing white-space characters.
pub open spec fn trail_ws(s: Seq<char>) -> nat
    decreases s.len(),
{
    if s.len() == 0 || !is_ws(s.last()) { 0 } else { 1 + trail_ws(s.drop_last()) }
}

/// The sequence without leading and trailing white space (`str::trim`).
pub open spec fn trim(s: Seq<char>) -> Seq<char> {
    if lead_ws(s) == s.len() { Seq::empty() } else { s.subrange(lead_ws(s) as int, s.len() - trail_ws(s)) }
}

proof fn lemma_lead_ws(s: Seq<char>, i: int)
    requires
        0 <= i <= s.len(),
        forall|j: int| 0 <= j < i ==> is_ws(s[j]),
        i == s.len() || !is_ws(s[i]),
    ensures
        lead_ws(s) == i,
    decreases i,
{
    if i > 0 {
        lemma_lead_ws(s.drop_first(), i - 1);
    }
}

proof fn lemma_trail_ws(s: Seq<char>, i: int)
    requires
        0 <= i <= s.len(),
        forall|j: int| i <= j < s.len() ==> is_ws(s[j]),
        i == 0 || !is_ws(s[i - 1]),
    ensures
        trail_ws(s) == s.len() - i,
    decreases s.len() - i,
{
    if i < s.len() {
        lemma_trail_ws(s.drop_last(), i);
    }
}

/// `str::trim`.
pub fn trim_chars(s: &Vec<char>) -> (r: Vec<char>)
    ensures
        r@ == trim(s@),
{
    let mut a: usize = 0;
    while a < s.len() && is_whitespace(s[a])
        invariant
            a <= s@.len(),
            forall|j: int| 0 <= j < a ==> is_ws(s@[j]),
        decreases s@.len() - a,
    {
        a = a + 1;
    }
    proof {
        lemma_lead_ws(s@, a as int);
    }
    if a == s.len() {
        return Vec::new();
    }
    let mut e: usize = s.len();
    while e > a && is_whitespace(s[e - 1])
        invariant
            a < s@.len(),
            a <= e <= s@.len(),
            !is_ws(s@[a as int]),
            forall|j: int| e <= j < s@.len() ==> is_ws(s@[j]),
        decreases e,
    {
        e = e - 1;
    }
    proof {
        lemma_trail_ws(s@, e as int);
    }
    let mut r = Vec::new();
    let mut k = a;
    while k < e
        invariant
            a <= k <= e <= s@.len(),
            r@ == s@.subrange(a as int, k as int),
        decreases e - k,
    {
        r.push(s[k]);
        k = k + 1;
        assert(r@ =~= s@.subrange(a as int, k as int));
    }
    r
}

/// The number of bytes of a character in UTF-8.
pub open spec fn utf8_width(c: char) -> nat {
    let u = c as u32;
    if u < 0x80 { 1 } else if u < 0x800 { 2 } else if u < 0x10000 { 3 } else { 4 }
}

/// The number of bytes of a sequence in UTF-8 (`str::len`).
pub open spec fn utf8_len(s: Seq<char>) -> nat
    decreases s.len(),
{
    if s.len() == 0 { 0 } else { utf8_len(s.drop_last()) + utf8_width(s.last()) }
}

pub fn char_width(c: char) -> (r: usize)
    ensures
        r == utf8_width(c),
{
    let u = c as u32;
    if u < 0x80 { 1 } else if u < 0x800 { 2 } else if u < 0x10000 { 3 } else { 4 }
}

/// The character index at which byte offset `b` falls on a character
/// boundary, if it does.
pub open spec fn char_index_at(s: Seq<char>, b: int) -> Option<int> {
    if exists|k: int| 0 <= k <= s.len() && utf8_len(s.take(k)) == b {
        Some(choose|k: int| 0 <= k <= s.len() && utf8_len(s.take(k)) == b)
    } else {
        None
    }
}

pub proof fn lemma_utf8_take_mono(s: Seq<char>, i: int, j: int)
    requires
        0 <= i < j <= s.len(),
    ensures
        utf8_len(s.take(i)) < utf8_len(s.take(j)),
    decreases j - i,
{
    assert(s.take(j).drop_last() =~= s.take(j - 1));
    if i < j - 1 {
        lemma_utf8_take_mono(s, i, j - 1);
    }
}

/// Finds the character index at byte offset `b`.
pub fn char_index(s: &Vec<char>, b: usize) -> (r: Option<usize>)
    ensures
        r matches Some(k) ==> char_index_at(s@, b as int) == Some(k as int) && k <= s@.len(),
        r is None ==> char_index_at(s@, b as int) is None,
{
    let mut n: u128 = 0;
    let mut k: usize = 0;
    while k < s.len() && n < b as u128
        invariant
            k <= s@.len(),
            n == utf8_len(s@.take(k as int)),
            n <= 4 * k,
            forall|j: int| 0 <= j < k ==> utf8_len(s@.take(j)) < b,
        decreases s@.len() - k,
    {
        proof {
            assert(s@.take(k + 1).drop_last() =~= s@.take(k as int));
        }
        n = n + char_width(s[k]) as u128;
        k = k + 1;
    }
    if n == b as u128 {
        proof {
            assert(utf8_len(s@.take(k as int)) == b);
            let c = choose|j: int| 0 <= j <= s@.len() && utf8_len(s@.take(j)) == b;
            if c < k {
                lemma_utf8_take_mono(s@, c, k as int);
            } else if c > k {
                lemma_utf8_take_mono(s@, k as int, c);
            }
        }
        Some(k)
    } else {
        proof {
            assert forall|j: int| 0 <= j <= s@.len() implies utf8_len(s@.take(j)) != b by {
                if j < k {
                } else if j > k {
                    lemma_utf8_take_mono(s@, k as int, j);
                    if n < b {
                        assert(k == s@.len());
                    }
                }
            }
        }
        None
    }
}

/// `needle` occurs in `s` at index `i`.
pub open spec fn match_at(s: Seq<char>, needle: Seq<char>, i: int) -> bool {
    0 <= i && i + needle.len() <= s.len() && s.subrange(i, i + needle.len()) == needle
}

pub fn matches_at(s: &Vec<char>, needle: &Vec<char>, i: usize) -> (r: bool)
    ensures
        r == match_at(s@, needle@, i as int),
{
    if i > s.len() || needle.len() > s.len() - i {
        return false;
    }
    let mut k: usize = 0;
    let n: usize = s.len();
    while k < needle.len()
        invariant
            k <= needle@.len(),
            n == s@.len(),
            i + needle@.len() <= s@.len(),
            forall|j: int| 0 <= j < k ==> s@[i + j] == needle@[j],
        decreases needle@.len() - k,
    {
        if s[i + k] != needle[k] {
            assert(s@.subrange(i as int, i + needle@.len())[k as int] != needle@[k as int]);
            return false;
        }
        k = k + 1;
    }
    assert(s@.subrange(i as int, i + needle@.len()) =~= needle@);
    true
}

/// `str::replace` for a nonempty pattern: every non-overlapping match,
/// leftmost first, replaced.
pub open spec fn replace_all(s: Seq<char>, from: Seq<char>, to: Seq<char>) -> Seq<char>
    decreases s.len(),
{
    if s.len() == 0 || from.len() == 0 {
        s
    } else if match_at(s, from, 0) {
        to + replace_all(s.skip(from.len() as int), from, to)
    } else {
        seq![s[0]] + replace_all(s.drop_first(), from, to)
    }
}

/// `str::replace` for an empty pattern: `to` before every character and
/// at the end.
pub open spec fn replace_empty(s: Seq<char>, to: Seq<char>) -> Seq<char>
    decreases s.len(),
{
    if s.len() == 0 { to } else { to + seq![s[0]] + replace_empty(s.drop_first(), to) }
}

pub open spec fn replace_spec(s: Seq<char>, from: Seq<char>, to: Seq<char>) -> Seq<char> {
    if from.len() == 0 { replace_empty(s, to) } else { replace_all(s, from, to) }
}

pub fn replace_chars(s: &Vec<char>, from: &Vec<char>, to: &Vec<char>) -> (r: Vec<char>)
    ensures
        r@ == replace_spec(s@, from@, to@),
{
    let mut r: Vec<char> = Vec::new();
    let mut i: usize = 0;
    if from.len() == 0 {
        assert(s@.skip(0) =~= s@);
        while i < s.len()
            invariant
                i <= s@.len(),
                r@ + replace_empty(s@.skip(i as int), to@) == replace_empty(s@, to@),
            decreases s@.len() - i,
        {
            assert(s@.skip(i as int).drop_first() =~= s@.skip(i + 1));
            crate::fmt::push_all(&mut r, to);
            r.push(s[i]);
            i = i + 1;
            assert(r@ + replace_empty(s@.skip(i as int), to@) =~= replace_empty(s@, to@));
        }
        crate::fmt::push_all(&mut r, to);
        assert(r@ =~= replace_empty(s@, to@));
        return r;
    }
    assert(s@.skip(0) =~= s@);
    while i < s.len()
        invariant
            i <= s@.len(),
            from@.len() > 0,
            r@ + replace_all(s@.skip(i as int), from@, to@) == replace_all(s@, from@, to@),
        decreases s@.len() - i,
    {
        let ghost rest = s@.skip(i as int);
        if matches_at(s, from, i) {
            assert(match_at(rest, from@, 0)) by {
                assert(rest.subrange(0, from@.len() as int) =~= s@.subrange(i as int, i + from@.len()));
            }
            assert(rest.skip(from@.len() as int) =~= s@.skip(i + from@.len()));
            crate::fmt::push_all(&mut r, to);
            i = i + from.len();
            assert(r@ + replace_all(s@.skip(i as int), from@, to@) =~= replace_all(s@, from@, to@));
        } else {
            assert(!match_at(rest, from@, 0)) by {
                if match_at(rest, from@, 0) {
                    assert(rest.subrange(0, from@.len() as int) =~= s@.subrange(i as int, i + from@.len()));
                }
            }
            assert(rest.drop_first() =~= s@.skip(i + 1));
            r.push(s[i]);
            i = i + 1;
            assert(r@ + replace_all(s@.skip(i as int), from@, to@) =~= replace_all(s@, from@, to@));
        }
    }
    assert(s@.skip(i as int) =~= Seq::<char>::empty());
    assert(r@ =~= replace_all(s@, from@, to@));
    r
}

/// The parts of `s[start..]` between matches of a nonempty `d`, scanning
/// from index `i` (`str::split`).
pub open spec fn split_scan(s: Seq<char>, d: Seq<char>, start: int, i: int) -> Seq<Seq<char>>
    decreases s.len() - i,
{
    if d.len() == 0 || i >= s.len() || i < start || start < 0 {
        seq![s.subrange(start, s.len() as int)]
    } else if match_at(s, d, i) {
        seq![s.subrange(start, i)] + split_scan(s, d, i + d.len(), i + d.len())
    } else {
        split_scan(s, d, start, i + 1)
    }
}

/// `str::split`: with an empty delimiter, an empty part, each character,
/// and an empty part.
pub open spec fn split_spec(s: Seq<char>, d: Seq<char>) -> Seq<Seq<char>> {
    if d.len() == 0 {
        seq![Seq::<char>::empty()] + s.map_values(|c: char| seq![c]) + seq![Seq::<char>::empty()]
    } else {
        split_scan(s, d, 0, 0)
    }
}

pub fn split_chars(s: &Vec<char>, d: &Vec<char>) -> (r: Vec<Vec<char>>)
    ensures
        r.deep_view() == split_spec(s@, d@),
{
    let mut r: Vec<Vec<char>> = Vec::new();
    if d.len() == 0 {
        r.push(Vec::new());
        let mut k: usize = 0;
        assert(r.deep_view() =~~= seq![Seq::<char>::empty()] + s@.take(0).map_values(|c: char| seq![c]));
        while k < s.len()
            invariant
                k <= s@.len(),
                r.deep_view() == seq![Seq::<char>::empty()] + s@.take(k as int).map_values(|c: char| seq![c]),
            decreases s@.len() - k,
        {
            let mut one = Vec::new();
            one.push(s[k]);
            assert(one.deep_view() =~~= seq![s@[k as int]]);
            let ghost before = r.deep_view();
            r.push(one);
            assert(r.deep_view() =~~= before.push(seq![s@[k as int]]));
            assert(s@.take(k + 1).map_values(|c: char| seq![c]) =~= s@.take(k as int).map_values(|c: char| seq![c]).push(seq![s@[k as int]]));
            k = k + 1;
            assert(r.deep_view() =~~= seq![Seq::<char>::empty()] + s@.take(k as int).map_values(|c: char| seq![c]));
        }
        let ghost before = r.deep_view();
        r.push(Vec::new());
        assert(r.deep_view() =~~= before.push(Seq::<char>::empty()));
        assert(s@.take(s@.len() as int) =~= s@);
        assert(r.deep_view() =~~= split_spec(s@, d@));
        return r;
    }
    let mut start: usize = 0;
    let mut i: usize = 0;
    while i < s.len()
        invariant
            start <= i <= s@.len(),
            d@.len() > 0,
            r.deep_view() + split_scan(s@, d@, start as int, i as int) == split_scan(s@, d@, 0, 0),
        decreases s@.len() - i,
    {
        if matches_at(s, d, i) {
            let mut part = Vec::new();
            let mut k = start;
            while k < i
                invariant
                    start <= k <= i <= s@.len(),
                    part@ == s@.subrange(start as int, k as int),
                decreases i - k,
            {
                part.push(s[k]);
                k = k + 1;
                assert(part@ =~= s@.subrange(start as int, k as int));
            }
            let ghost before = r.deep_view();
            assert(part.deep_view() =~~= s@.subrange(start as int, i as int));
            r.push(part);
            assert(r.deep_view() =~~= before.push(s@.subrange(start as int, i as int)));
            assert(r.deep_view() =~~= before + seq![s@.subrange(start as int, i as int)]);
            i = i + d.len();
            start = i;
            assert(r.deep_view() + split_scan(s@, d@, start as int, i as int) =~= split_scan(s@, d@, 0, 0));
        } else {
            i = i + 1;
        }
    }
    let mut part = Vec::new();
    let mut k = start;
    while k < s.len()
        invariant
            start <= k <= s@.len(),
            part@ == s@.subrange(start as int, k as int),
        decreases s@.len() - k,
    {
        part.push(s[k]);
        k = k + 1;
        assert(part@ =~= s@.subrange(start as int, k as int));
    }
    let ghost before = r.deep_view();
    assert(part.deep_view() =~~= s@.subrange(start as int, s@.len() as int));
    r.push(part);
    assert(r.deep_view() =~~= before.push(s@.subrange(start as int, s@.len() as int)));
    assert(r.deep_view() =~~= before + seq![s@.subrange(start as int, s@.len() as int)]);
    assert(r.deep_view() =~~= split_scan(s@, d@, 0, 0));
    r
}

/// The value of a sequence of decimal digits.
pub open spec fn digits_value(s: Seq<char>) -> int
    decreases s.len(),
{
    if s.len() == 0 { 0 } else { digits_value(s.drop_last()) * 10 + (s.last() as int - '0' as int) }
}

pub open spec fn all_digits(s: Seq<char>) -> bool {
    forall|i: int| 0 <= i < s.len() ==> '0' <= #[trigger] s[i] <= '9'
}

/// `i64::from_str`: an optional sign, then one or more decimal digits, in
/// range.
pub open spec fn parse_i64_spec(s: Seq<char>) -> Option<i64> {
    let neg = s.len() > 0 && s[0] == '-';
    let signed = s.len() > 0 && (s[0] == '-' || s[0] == '+');
    let ds = if signed { s.drop_first() } else { s };
    let v = if neg { -digits_value(ds) } else { digits_value(ds) };
    if ds.len() > 0 && all_digits(ds) && in_i64(v) { Some(v as i64) } else { None }
}

pub(crate) proof fn lemma_digits_nonneg(s: Seq<char>)
    requires
        all_digits(s),
    ensures
        digits_value(s) >= 0,
    decreases s.len(),
{
    if s.len() > 0 {
        assert(all_digits(s.drop_last())) by {
            assert forall|i: int| 0 <= i < s.drop_last().len() implies '0' <= #[trigger] s.drop_last()[i] <= '9' by {
                assert(s.drop_last()[i] == s[i]);
            }
        }
        lemma_digits_nonneg(s.drop_last());
        assert('0' <= s[s.len() - 1] <= '9');
        assert(digits_value(s) == digits_value(s.drop_last()) * 10 + (s.last() as int - '0' as int));
    }
}

proof fn lemma_digits_grow(s: Seq<char>, k: int)
    requires
        0 <= k <= s.len(),
        all_digits(s),
    ensures
        digits_value(s.take(k)) <= digits_value(s),
    decreases s.len() - k,
{
    if k < s.len() {
        assert(s.take(k) =~= s.drop_last().take(k));
        assert(all_digits(s.drop_last())) by {
            assert forall|i: int| 0 <= i < s.drop_last().len() implies '0' <= #[trigger] s.drop_last()[i] <= '9' by {
                assert(s.drop_last()[i] == s[i]);
            }
        }
        lemma_digits_grow(s.drop_last(), k);
        lemma_digits_nonneg(s.drop_last());
        assert('0' <= s[s.len() - 1] <= '9');
        assert(digits_value(s) == digits_value(s.drop_last()) * 10 + (s.last() as int - '0' as int));
        assert(digits_value(s.drop_last().take(k)) <= digits_value(s.drop_last()));
    } else {
        assert(s.take(k) =~= s);
    }
}

/// Parses an integer as `i64::from_str` does.
pub fn parse_i64(s: &Vec<char>) -> (r: Option<i64>)
    ensures
        r == parse_i64_spec(s@),
{
    if s.len() == 0 {
        return None;
    }
    let neg = s[0] == '-';
    let signed = s[0] == '-' || s[0] == '+';
    let start: usize = if signed { 1 } else { 0 };
    let ghost ds = if signed { s@.drop_first() } else { s@ };
    if start == s.len() {
        assert(ds.len() == 0);
        return None;
    }
    let limit: u128 = if neg { 9223372036854775808u128 } else { 9223372036854775807u128 };
    let mut acc: u128 = 0;
    let mut k: usize = start;
    while k < s.len()
        invariant
            start <= k <= s@.len(),
            ds =~= s@.skip(start as int),
            ds == (if signed { s@.drop_first() } else { s@ }),
            all_digits(ds.take(k - start)),
            acc == digits_value(ds.take(k - start)),
            acc <= limit,
            neg ==> limit == 9223372036854775808u128,
            !neg ==> limit == 9223372036854775807u128,
            neg == (s@[0] == '-'),
            signed == (s@[0] == '-' || s@[0] == '+'),
            start == (if signed { 1usize } else { 0usize }),
            s@.len() > 0,
        decreases s@.len() - k,
    {
        let c = s[k];
        if c < '0' || c > '9' {
            assert(!all_digits(ds)) by {
                assert(ds[k - start] == c);
            }
            return None;
        }
        let d = (c as u32 - '0' as u32) as u128;
        assert(ds.take(k + 1 - start).drop_last() =~= ds.take(k - start));
        acc = acc * 10 + d;
        k = k + 1;
        assert(all_digits(ds.take(k - start))) by {
            assert forall|i: int| 0 <= i < ds.take(k - start).len() implies '0' <= #[trigger] ds.take(k - start)[i] <= '9' by {
                if i < k - 1 - start {
                    assert(ds.take(k - start)[i] == ds.take(k - 1 - start)[i]);
                }
            }
        }
        if acc > limit {
            proof {
                if all_digits(ds) {
                    lemma_digits_grow(ds, k - start);
                    assert(digits_value(ds) > limit);
                    assert(!in_i64(if neg { -digits_value(ds) } else { digits_value(ds) }));
                }
            }
            return None;
        }
    }
    assert(ds.take(k - start) =~= ds);
    if neg {
        if acc == 9223372036854775808u128 {
            Some(i64::MIN)
        } else {
            Some(-(acc as i64))
        }
    } else {
        Some(acc as i64)
    }
}

} // verus!
