//! A text processing toolkit: case conversion, truncation, padding, splitting,
//! searching and replacing, and an incremental string builder.
use vstd::prelude::*;
use crate::text::{
    is_white_space, is_whitespace, lowercase_mapping, uppercase_mapping, str_chars,
    string_from_chars, str_to_lowercase, str_to_uppercase, str_lowercase, str_uppercase,
    to_lowercase_chars, to_uppercase_chars,
};

verus! {

/// Which side to pad a string on.
#[derive(Debug, Clone, Copy, PartialEq, Eq, Structural)]
pub enum PadSide {
    Left,
    Right,
    Both,
}

/// Case conversion style.
#[derive(Debug, Clone, Copy, PartialEq, Eq, Structural)]
pub enum CaseStyle {
    Upper,
    Lower,
    Title,
}

/// Errors that text operations can produce.
#[derive(Debug, Clone, Copy, PartialEq, Eq, Structural)]
pub enum TextError {
    InvalidIndex,
    PatternNotFound,
    EmptyInput,
}

/// The result of a `split` operation.
#[derive(Debug, Clone, PartialEq, Eq)]
pub struct SplitResult {
    pub parts: Vec<String>,
    pub count: u32,
}

/// Configuration for padding.
pub struct PadConfig {
    pub width: u32,
    pub fill: char,
    pub side: PadSide,
}

/// Title case after the first `n` characters, and whether the next
/// non-whitespace character starts a word.
pub open spec fn title_prefix(s: Seq<char>, n: nat) -> (Seq<char>, bool)
    decreases n,
{
    if n == 0 {
        (Seq::empty(), true)
    } else {
        let (out, cap) = title_prefix(s, (n - 1) as nat);
        let c = s[n - 1];
        if is_white_space(c) {
            (out.push(c), true)
        } else if cap {
            (out + uppercase_mapping(c), false)
        } else {
            (out + lowercase_mapping(c), false)
        }
    }
}

/// Each whitespace-separated word with its first character upper-cased and the
/// rest lower-cased; whitespace is kept.
pub open spec fn title_case_spec(s: Seq<char>) -> Seq<char> {
    title_prefix(s, s.len()).0
}

/// Title-case a string.
pub fn title_case(s: &str) -> (r: String)
    ensures
        r@ == title_case_spec(s@),
{
    let chars = str_chars(s);
    let mut out: Vec<char> = Vec::new();
    let mut cap = true;
    let mut i: usize = 0;
    while i < chars.len()
        invariant
            i <= chars.len(),
            chars@ == s@,
            title_prefix(s@, i as nat) == (out@, cap),
        decreases chars.len() - i,
    {
        let c = chars[i];
        if is_whitespace(c) {
            out.push(c);
            cap = true;
        } else if cap {
            let mut up = to_uppercase_chars(c);
            out.append(&mut up);
            cap = false;
        } else {
            let mut low = to_lowercase_chars(c);
            out.append(&mut low);
            cap = false;
        }
        i = i + 1;
    }
    string_from_chars(out.as_slice())
}

/// Reverse a string, character by character.
pub fn reverse(input: String) -> (r: String)
    ensures
        r@ == input@.reverse(),
{
    let chars = str_chars(input.as_str());
    let mut out: Vec<char> = Vec::new();
    let mut i: usize = chars.len();
    while i > 0
        invariant
            i <= chars.len(),
            out@ == chars@.skip(i as int).reverse(),
        decreases i,
    {
        proof {
            assert(chars@.skip(i - 1) == seq![chars@[i - 1]] + chars@.skip(i as int));
            assert(chars@.skip(i - 1).reverse() == chars@.skip(i as int).reverse().push(chars@[i - 1]))
                by {
                let a = chars@.skip(i - 1);
                let b = chars@.skip(i as int).reverse().push(chars@[i - 1]);
                assert(a.reverse().len() == b.len());
                assert forall|k: int| 0 <= k < b.len() implies a.reverse()[k] == b[k] by {
                    if k < b.len() - 1 {
                        assert(a.reverse()[k] == a[a.len() - 1 - k]);
                    }
                }
            }
        }
        out.push(chars[i - 1]);
        i = i - 1;
    }
    assert(chars@.skip(0) == chars@);
    string_from_chars(out.as_slice())
}

/// The string converted to the given case style.
pub open spec fn convert_case_spec(s: Seq<char>, style: CaseStyle) -> Seq<char> {
    match style {
        CaseStyle::Upper => str_uppercase(s),
        CaseStyle::Lower => str_lowercase(s),
        CaseStyle::Title => title_case_spec(s),
    }
}

/// Convert a string to the specified case.
pub fn convert_case(input: String, style: CaseStyle) -> (r: String)
    ensures
        r@ == convert_case_spec(input@, style),
{
    match style {
        CaseStyle::Upper => str_to_uppercase(input.as_str()),
        CaseStyle::Lower => str_to_lowercase(input.as_str()),
        CaseStyle::Title => title_case(input.as_str()),
    }
}

/// At most `max` characters of `s`, followed by `suffix` when `s` was longer.
pub open spec fn truncate_spec(s: Seq<char>, max: nat, suffix: Seq<char>) -> Seq<char> {
    if s.len() <= max {
        s
    } else {
        s.take(max as int) + suffix
    }
}

/// Truncate a string to `max_len` characters, appending `suffix` if truncated.
pub fn truncate(input: String, max_len: u32, suffix: String) -> (r: String)
    ensures
        r@ == truncate_spec(input@, max_len as nat, suffix@),
{
    let chars = str_chars(input.as_str());
    let max = max_len as usize;
    if chars.len() <= max {
        return input;
    }
    let mut out: Vec<char> = Vec::new();
    let mut i: usize = 0;
    while i < max
        invariant
            i <= max < chars.len(),
            out@ == chars@.take(i as int),
        decreases max - i,
    {
        out.push(chars[i]);
        i = i + 1;
        proof {
            assert(chars@.take(i as int) == chars@.take(i - 1).push(chars@[i - 1]));
        }
    }
    let mut rest = str_chars(suffix.as_str());
    out.append(&mut rest);
    string_from_chars(out.as_slice())
}

/// `n` copies of `c`.
pub open spec fn repeat_char(c: char, n: nat) -> Seq<char> {
    Seq::new(n, |i: int| c)
}

fn push_repeat(out: &mut Vec<char>, c: char, n: usize)
    ensures
        final(out)@ == old(out)@ + repeat_char(c, n as nat),
{
    let mut i: usize = 0;
    while i < n
        invariant
            i <= n,
            out@ == old(out)@ + repeat_char(c, i as nat),
        decreases n - i,
    {
        out.push(c);
        i = i + 1;
        proof {
            assert(repeat_char(c, i as nat) == repeat_char(c, (i - 1) as nat).push(c));
        }
    }
}

/// `s` padded with `fill` to `width` characters on the given side; on both
/// sides the smaller half goes left.
pub open spec fn pad_spec(s: Seq<char>, width: nat, fill: char, side: PadSide) -> Seq<char> {
    if s.len() >= width {
        s
    } else {
        let diff = (width - s.len()) as nat;
        match side {
            PadSide::Left => repeat_char(fill, diff) + s,
            PadSide::Right => s + repeat_char(fill, diff),
            PadSide::Both => repeat_char(fill, diff / 2) + s + repeat_char(fill, (diff - diff / 2) as nat),
        }
    }
}

/// Pad a string according to `config`.
pub fn pad(input: String, config: PadConfig) -> (r: String)
    ensures
        r@ == pad_spec(input@, config.width as nat, config.fill, config.side),
{
    let chars = str_chars(input.as_str());
    let width = config.width as usize;
    let len = chars.len();
    if len >= width {
        return input;
    }
    let fill = config.fill;
    let diff = width - len;
    let mut out: Vec<char> = Vec::new();
    match config.side {
        PadSide::Left => {
            push_repeat(&mut out, fill, diff);
            let mut c2 = chars.clone();
            out.append(&mut c2);
        },
        PadSide::Right => {
            let mut c2 = chars.clone();
            out.append(&mut c2);
            push_repeat(&mut out, fill, diff);
        },
        PadSide::Both => {
            let left = diff / 2;
            let right = diff - left;
            push_repeat(&mut out, fill, left);
            let mut c2 = chars.clone();
            out.append(&mut c2);
            push_repeat(&mut out, fill, right);
        },
    }
    string_from_chars(out.as_slice())
}

/// Extract the characters `start..end`; an error if the indices are out of
/// bounds or reversed.
pub fn substring(input: String, start: u32, end: u32) -> (r: Result<String, TextError>)
    ensures
        match r {
            Ok(t) => start <= end <= input@.len() && t@ == input@.subrange(start as int, end as int),
            Err(e) => !(start <= end <= input@.len()) && e == TextError::InvalidIndex,
        },
{
    let chars = str_chars(input.as_str());
    let s = start as usize;
    let e = end as usize;
    if s > chars.len() || e > chars.len() || s > e {
        return Err(TextError::InvalidIndex);
    }
    Ok(crate::text::slice_string(&chars, s, e))
}

/// Return the character length of a string (modulo 2^32).
pub fn char_count(input: String) -> (n: u32)
    ensures
        n == input@.len() as u32,
{
    let chars = str_chars(input.as_str());
    chars.len() as u32
}

/// `s` without leading whitespace.
pub open spec fn trim_start_spec(s: Seq<char>) -> Seq<char>
    decreases s.len(),
{
    if s.len() > 0 && is_white_space(s[0]) {
        trim_start_spec(s.drop_first())
    } else {
        s
    }
}

/// `s` without trailing whitespace.
pub open spec fn trim_end_spec(s: Seq<char>) -> Seq<char>
    decreases s.len(),
{
    if s.len() > 0 && is_white_space(s.last()) {
        trim_end_spec(s.drop_last())
    } else {
        s
    }
}

/// `s` without leading and trailing whitespace.
pub open spec fn trim_spec(s: Seq<char>) -> Seq<char> {
    trim_end_spec(trim_start_spec(s))
}

/// Trim whitespace from both ends.
pub fn trim(input: String) -> (r: String)
    ensures
        r@ == trim_spec(input@),
{
    let chars = str_chars(input.as_str());
    let mut lo: usize = 0;
    assert(chars@.skip(0) == chars@);
    while lo < chars.len() && is_whitespace(chars[lo])
        invariant
            lo <= chars.len(),
            trim_start_spec(chars@) == trim_start_spec(chars@.skip(lo as int)),
        decreases chars.len() - lo,
    {
        proof {
            assert(chars@.skip(lo as int).drop_first() == chars@.skip(lo + 1));
        }
        lo = lo + 1;
    }
    let ghost mid = chars@.skip(lo as int);
    assert(trim_start_spec(chars@) == mid);
    let mut hi: usize = chars.len();
    assert(chars@.subrange(lo as int, chars.len() as int) == mid);
    while hi > lo && is_whitespace(chars[hi - 1])
        invariant
            lo <= hi <= chars.len(),
            mid == chars@.skip(lo as int),
            trim_end_spec(mid) == trim_end_spec(chars@.subrange(lo as int, hi as int)),
        decreases hi,
    {
        proof {
            assert(chars@.subrange(lo as int, hi as int).drop_last() == chars@.subrange(lo as int, hi - 1));
        }
        hi = hi - 1;
    }
    assert(chars@.subrange(lo as int, chars.len() as int) == mid);
    crate::text::slice_string(&chars, lo, hi)
}

} // verus!

verus! {

/// `p` occurs in `s` at position `i`.
pub open spec fn matches_at(s: Seq<char>, p: Seq<char>, i: int) -> bool {
    0 <= i && i + p.len() <= s.len() && s.subrange(i, i + p.len()) == p
}

/// The first position at or after `from` where `p` occurs in `s`, or -1.
pub open spec fn next_match(s: Seq<char>, p: Seq<char>, from: int) -> int
    decreases s.len() + 1 - from,
{
    if from < 0 || from + p.len() > s.len() {
        -1
    } else if matches_at(s, p, from) {
        from
    } else {
        next_match(s, p, from + 1)
    }
}

proof fn lemma_next_match(s: Seq<char>, p: Seq<char>, from: int)
    requires
        0 <= from,
    ensures
        next_match(s, p, from) == -1 || (from <= next_match(s, p, from) && matches_at(
            s,
            p,
            next_match(s, p, from),
        )),
        forall|j: int|
            from <= j && (next_match(s, p, from) < 0 || j < next_match(s, p, from)) ==> !matches_at(
                s,
                p,
                j,
            ),
    decreases s.len() + 1 - from,
{
    if from + p.len() <= s.len() && !matches_at(s, p, from) {
        lemma_next_match(s, p, from + 1);
    }
}

/// Whether `p` occurs in `s`.
pub open spec fn contains_spec(s: Seq<char>, p: Seq<char>) -> bool {
    exists|i: int| matches_at(s, p, i)
}

/// The pieces of `s` from `from` on, cut at the non-overlapping occurrences of
/// the non-empty `p`, searched from the left.
pub open spec fn split_from(s: Seq<char>, p: Seq<char>, from: int) -> Seq<Seq<char>>
    decreases s.len() - from,
{
    let m = next_match(s, p, from);
    if p.len() > 0 && from <= m && m + p.len() <= s.len() {
        seq![s.subrange(from, m)] + split_from(s, p, m + p.len())
    } else {
        seq![s.subrange(from, s.len() as int)]
    }
}

/// `str::split` by a string pattern: an empty pattern cuts before and after
/// every character.
pub open spec fn split_spec(s: Seq<char>, p: Seq<char>) -> Seq<Seq<char>> {
    if p.len() == 0 {
        seq![Seq::<char>::empty()] + Seq::new(s.len(), |i: int| seq![s[i]]) + seq![Seq::<char>::empty()]
    } else {
        split_from(s, p, 0)
    }
}

/// `s` from `from` on with every non-overlapping occurrence of the non-empty
/// `p` replaced by `r`.
pub open spec fn replace_from(s: Seq<char>, p: Seq<char>, r: Seq<char>, from: int) -> Seq<char>
    decreases s.len() - from,
{
    let m = next_match(s, p, from);
    if p.len() > 0 && from <= m && m + p.len() <= s.len() {
        s.subrange(from, m) + r + replace_from(s, p, r, m + p.len())
    } else {
        s.subrange(from, s.len() as int)
    }
}

/// `r` before every character of `s` and once more at the end.
pub open spec fn interleave(s: Seq<char>, r: Seq<char>) -> Seq<char>
    decreases s.len(),
{
    if s.len() == 0 {
        r
    } else {
        r + seq![s[0]] + interleave(s.drop_first(), r)
    }
}

/// `str::replace` with a string pattern.
pub open spec fn replace_spec(s: Seq<char>, p: Seq<char>, r: Seq<char>) -> Seq<char> {
    if p.len() == 0 {
        interleave(s, r)
    } else {
        replace_from(s, p, r, 0)
    }
}

/// The number of non-overlapping occurrences of the non-empty `p` from `from` on.
pub open spec fn count_from(s: Seq<char>, p: Seq<char>, from: int) -> nat
    decreases s.len() - from,
{
    let m = next_match(s, p, from);
    if p.len() > 0 && from <= m && m + p.len() <= s.len() {
        1 + count_from(s, p, m + p.len())
    } else {
        0
    }
}

/// The number of non-overlapping occurrences of `p`; zero for an empty pattern.
pub open spec fn count_spec(s: Seq<char>, p: Seq<char>) -> nat {
    if p.len() == 0 {
        0
    } else {
        count_from(s, p, 0)
    }
}

/// The parts joined with `sep` between consecutive parts.
pub open spec fn join_spec(parts: Seq<Seq<char>>, sep: Seq<char>) -> Seq<char>
    decreases parts.len(),
{
    if parts.len() == 0 {
        Seq::empty()
    } else if parts.len() == 1 {
        parts[0]
    } else {
        join_spec(parts.drop_last(), sep) + sep + parts.last()
    }
}

/// The views of a sequence of strings.
pub open spec fn string_views(v: Seq<String>) -> Seq<Seq<char>> {
    v.map_values(|x: String| x@)
}

fn matches_at_exec(s: &Vec<char>, p: &Vec<char>, i: usize) -> (b: bool)
    ensures
        b == matches_at(s@, p@, i as int),
{
    if i > s.len() || p.len() > s.len() - i {
        return false;
    }
    let mut k: usize = 0;
    while k < p.len()
        invariant
            k <= p.len(),
            i + p.len() <= s.len(),
            s@.subrange(i as int, i + k) == p@.take(k as int),
        decreases p.len() - k,
    {
        if s[i + k] != p[k] {
            assert(s@.subrange(i as int, i + p.len())[k as int] != p@[k as int]);
            return false;
        }
        k = k + 1;
        proof {
            assert(s@.subrange(i as int, i + k) == s@.subrange(i as int, i + k - 1).push(s@[i + k - 1]));
            assert(p@.take(k as int) == p@.take(k - 1).push(p@[k - 1]));
        }
    }
    assert(p@.take(p.len() as int) == p@);
    true
}

fn find_from(s: &Vec<char>, p: &Vec<char>, from: usize) -> (r: Option<usize>)
    requires
        from <= s.len(),
    ensures
        match r {
            Some(i) => i as int == next_match(s@, p@, from as int) && matches_at(s@, p@, i as int),
            None => next_match(s@, p@, from as int) < 0,
        },
{
    if p.len() == 0 {
        assert(s@.subrange(from as int, from as int) == p@);
        return Some(from);
    }
    let mut i = from;
    while i < s.len() && p.len() <= s.len() - i
        invariant
            from <= i,
            next_match(s@, p@, from as int) == next_match(s@, p@, i as int),
        decreases s.len() - i,
    {
        if matches_at_exec(s, p, i) {
            return Some(i);
        }
        i = i + 1;
    }
    None
}

/// Split a string by a delimiter.
pub fn split(input: String, delimiter: String) -> (r: SplitResult)
    ensures
        string_views(r.parts@) == split_spec(input@, delimiter@),
        r.count == r.parts@.len() as u32,
{
    let s = str_chars(input.as_str());
    let p = str_chars(delimiter.as_str());
    let mut parts: Vec<String> = Vec::new();
    if p.len() == 0 {
        let first = String::new();
        proof {
            assert(string_views(parts@.push(first)) == string_views(parts@).push(first@));
        }
        parts.push(first);
        let mut i: usize = 0;
        while i < s.len()
            invariant
                i <= s.len(),
                string_views(parts@) == seq![Seq::<char>::empty()] + Seq::new(i as nat, |j: int| seq![s@[j]]),
            decreases s.len() - i,
        {
            let piece = crate::text::slice_string(&s, i, i + 1);
            proof {
                assert(piece@ == seq![s@[i as int]]);
                assert(string_views(parts@.push(piece)) == string_views(parts@).push(piece@));
                assert(Seq::new((i + 1) as nat, |j: int| seq![s@[j]]) == Seq::new(i as nat, |j: int| seq![s@[j]]).push(seq![s@[i as int]]));
            }
            parts.push(piece);
            i = i + 1;
        }
        let last = String::new();
        proof {
            assert(string_views(parts@.push(last)) == string_views(parts@).push(last@));
        }
        parts.push(last);
        proof {
            assert(string_views(parts@) == split_spec(input@, delimiter@));
        }
    } else {
        let mut from: usize = 0;
        loop
            invariant_except_break
                from <= s.len(),
                p@.len() > 0,
                s@ == input@,
                p@ == delimiter@,
                string_views(parts@) + split_from(s@, p@, from as int) == split_spec(input@, delimiter@),
            ensures
                string_views(parts@) == split_spec(input@, delimiter@),
            decreases s.len() - from,
        {
            proof { lemma_next_match(s@, p@, from as int); }
            match find_from(&s, &p, from) {
                Some(m) => {
                    let piece = crate::text::slice_string(&s, from, m);
                    proof {
                        assert(split_from(s@, p@, from as int) == seq![piece@] + split_from(s@, p@, m + p.len()));
                        assert(string_views(parts@.push(piece)) == string_views(parts@).push(piece@));
                    }
                    parts.push(piece);
                    from = m + p.len();
                },
                None => {
                    let piece = crate::text::slice_string(&s, from, s.len());
                    proof {
                        assert(split_from(s@, p@, from as int) == seq![piece@]);
                        assert(string_views(parts@.push(piece)) == string_views(parts@).push(piece@));
                    }
                    parts.push(piece);
                    assert(string_views(parts@) == split_spec(input@, delimiter@));
                    break;
                },
            }
        }
    }
    let count = parts.len() as u32;
    SplitResult { parts, count }
}

} // verus!

verus! {

/// Join a list of strings with a separator.
pub fn join(parts: Vec<String>, separator: String) -> (r: String)
    ensures
        r@ == join_spec(string_views(parts@), separator@),
{
    let sep = str_chars(separator.as_str());
    let mut out: Vec<char> = Vec::new();
    let mut i: usize = 0;
    while i < parts.len()
        invariant
            i <= parts.len(),
            sep@ == separator@,
            out@ == join_spec(string_views(parts@).take(i as int), separator@),
        decreases parts.len() - i,
    {
        let ghost views = string_views(parts@);
        proof {
            assert(views.take(i + 1).drop_last() == views.take(i as int));
            assert(views.take(i + 1).last() == parts@[i as int]@);
        }
        if i > 0 {
            let mut s2 = sep.clone();
            out.append(&mut s2);
        } else {
            assert(views.take(1) == seq![parts@[0]@]);
        }
        let mut piece = str_chars(parts[i].as_str());
        out.append(&mut piece);
        i = i + 1;
    }
    assert(string_views(parts@).take(parts.len() as int) == string_views(parts@));
    string_from_chars(out.as_slice())
}

/// Check whether `input` contains `pattern`.
pub fn contains(input: String, pattern: String) -> (b: bool)
    ensures
        b == contains_spec(input@, pattern@),
{
    let s = str_chars(input.as_str());
    let p = str_chars(pattern.as_str());
    proof { lemma_next_match(s@, p@, 0); }
    match find_from(&s, &p, 0) {
        Some(_) => true,
        None => false,
    }
}

/// Replace all occurrences of `pattern` with `replacement` in `input`.
pub fn replace_all(input: String, pattern: String, replacement: String) -> (r: String)
    ensures
        r@ == replace_spec(input@, pattern@, replacement@),
{
    let s = str_chars(input.as_str());
    let p = str_chars(pattern.as_str());
    let rep = str_chars(replacement.as_str());
    let mut out: Vec<char> = Vec::new();
    if p.len() == 0 {
        let mut i: usize = 0;
        assert(s@.skip(0) == s@);
        while i < s.len()
            invariant
                i <= s.len(),
                rep@ == replacement@,
                out@ + interleave(s@.skip(i as int), rep@) == interleave(s@, rep@),
            decreases s.len() - i,
        {
            proof {
                assert(s@.skip(i as int).drop_first() == s@.skip(i + 1));
                assert(s@.skip(i as int)[0] == s@[i as int]);
                assert(out@ + rep@ + seq![s@[i as int]] + interleave(s@.skip(i + 1), rep@) == out@ + (rep@
                    + seq![s@[i as int]] + interleave(s@.skip(i + 1), rep@)));
            }
            let mut r2 = rep.clone();
            out.append(&mut r2);
            out.push(s[i]);
            i = i + 1;
        }
        let mut r2 = rep.clone();
        out.append(&mut r2);
        return string_from_chars(out.as_slice());
    }
    let mut from: usize = 0;
    loop
        invariant_except_break
            from <= s.len(),
            p@.len() > 0,
            s@ == input@,
            p@ == pattern@,
            rep@ == replacement@,
            out@ + replace_from(s@, p@, rep@, from as int) == replace_spec(input@, pattern@, replacement@),
        ensures
            out@ == replace_spec(input@, pattern@, replacement@),
        decreases s.len() - from,
    {
        proof { lemma_next_match(s@, p@, from as int); }
        match find_from(&s, &p, from) {
            Some(m) => {
                let mut piece = crate::text::slice_chars(&s, from, m);
                let mut r2 = rep.clone();
                proof {
                    assert(out@ + piece@ + rep@ + replace_from(s@, p@, rep@, m + p.len()) == out@ + (piece@
                        + rep@ + replace_from(s@, p@, rep@, m + p.len())));
                }
                out.append(&mut piece);
                out.append(&mut r2);
                from = m + p.len();
            },
            None => {
                let mut piece = crate::text::slice_chars(&s, from, s.len());
                out.append(&mut piece);
                break;
            },
        }
    }
    string_from_chars(out.as_slice())
}

/// Count non-overlapping occurrences of `pattern` in `input` (modulo 2^32);
/// an empty pattern counts zero.
pub fn count(input: String, pattern: String) -> (n: u32)
    ensures
        n == count_spec(input@, pattern@) as u32,
{
    let s = str_chars(input.as_str());
    let p = str_chars(pattern.as_str());
    if p.len() == 0 {
        return 0;
    }
    let mut from: usize = 0;
    let mut c: usize = 0;
    loop
        invariant_except_break
            from <= s.len(),
            p@.len() > 0,
            s@ == input@,
            p@ == pattern@,
            c <= from,
            c + count_from(s@, p@, from as int) == count_spec(input@, pattern@),
        ensures
            c == count_spec(input@, pattern@),
        decreases s.len() - from,
    {
        proof { lemma_next_match(s@, p@, from as int); }
        match find_from(&s, &p, from) {
            Some(m) => {
                c = c + 1;
                from = m + p.len();
            },
            None => {
                break;
            },
        }
    }
    c as u32
}

/// An incremental string builder.
pub struct StringBuilder {
    buf: String,
}

impl View for StringBuilder {
    type V = Seq<char>;

    /// The text built so far.
    closed spec fn view(&self) -> Seq<char> {
        self.buf@
    }
}

impl StringBuilder {
    /// An empty builder.
    pub fn new() -> (sb: Self)
        ensures
            sb@ == Seq::<char>::empty(),
    {
        StringBuilder { buf: String::new() }
    }

    /// Append a string.
    pub fn append(&mut self, text: String)
        ensures
            final(self)@ == old(self)@ + text@,
    {
        let mut chars = str_chars(self.buf.as_str());
        let mut more = str_chars(text.as_str());
        chars.append(&mut more);
        self.buf = string_from_chars(chars.as_slice());
    }

    /// Append a string followed by a newline.
    pub fn append_line(&mut self, text: String)
        ensures
            final(self)@ == old(self)@ + text@ + seq!['\n'],
    {
        let mut chars = str_chars(self.buf.as_str());
        let mut more = str_chars(text.as_str());
        chars.append(&mut more);
        chars.push('\n');
        self.buf = string_from_chars(chars.as_slice());
    }

    /// Insert text at a character position; an error, with the text unchanged,
    /// when the position is past the end.
    pub fn insert(&mut self, index: u32, text: String) -> (r: Result<(), TextError>)
        ensures
            match r {
                Ok(()) => index <= old(self)@.len() && final(self)@ == old(self)@.take(index as int)
                    + text@ + old(self)@.skip(index as int),
                Err(e) => index > old(self)@.len() && e == TextError::InvalidIndex && final(self)@
                    == old(self)@,
            },
    {
        let chars = str_chars(self.buf.as_str());
        let idx = index as usize;
        if idx > chars.len() {
            return Err(TextError::InvalidIndex);
        }
        let mut out = crate::text::slice_chars(&chars, 0, idx);
        let mut more = str_chars(text.as_str());
        let mut tail = crate::text::slice_chars(&chars, idx, chars.len());
        out.append(&mut more);
        out.append(&mut tail);
        self.buf = string_from_chars(out.as_slice());
        Ok(())
    }

    /// Clear the builder.
    pub fn clear(&mut self)
        ensures
            final(self)@ == Seq::<char>::empty(),
    {
        self.buf = String::new();
    }

    /// Return the current length in characters (modulo 2^32).
    pub fn len(&self) -> (n: u32)
        ensures
            n == self@.len() as u32,
    {
        let chars = str_chars(self.buf.as_str());
        chars.len() as u32
    }

    /// Check if the builder is empty.
    pub fn is_empty(&self) -> (b: bool)
        ensures
            b == (self@.len() == 0),
    {
        self.buf.as_str().is_empty()
    }

    /// Return the built string.
    pub fn build(&self) -> (s: String)
        ensures
            s@ == self@,
    {
        self.buf.clone()
    }
}

} // verus!

verus! {

// ---------------------------------------------------------------------------
// Laws of splitting, joining, replacing and counting
// ---------------------------------------------------------------------------

proof fn lemma_join_prepend(a: Seq<char>, rest: Seq<Seq<char>>, sep: Seq<char>)
    requires
        rest.len() > 0,
    ensures
        join_spec(seq![a] + rest, sep) == a + sep + join_spec(rest, sep),
    decreases rest.len(),
{
    let all = seq![a] + rest;
    if rest.len() == 1 {
        assert(all.drop_last() =~= seq![a]);
        assert(all.last() == rest[0]);
        assert(join_spec(seq![a], sep) == a);
        assert(join_spec(all, sep) == join_spec(all.drop_last(), sep) + sep + all.last());
        assert(join_spec(rest, sep) == rest[0]);
    } else {
        lemma_join_prepend(a, rest.drop_last(), sep);
        assert(all.drop_last() =~= seq![a] + rest.drop_last());
        assert(all.last() == rest.last());
        let j = join_spec(rest.drop_last(), sep);
        assert(join_spec(all, sep) == join_spec(all.drop_last(), sep) + sep + all.last());
        assert(join_spec(rest, sep) == j + sep + rest.last());
        assert((a + sep + j) + sep + rest.last() =~= a + sep + (j + sep + rest.last()));
    }
}

proof fn lemma_split_from_nonempty(s: Seq<char>, p: Seq<char>, from: int)
    ensures
        split_from(s, p, from).len() >= 1,
    decreases s.len() - from,
{
    let m = next_match(s, p, from);
    if p.len() > 0 && from <= m && m + p.len() <= s.len() {
        lemma_split_from_nonempty(s, p, m + p.len());
    }
}

proof fn lemma_join_split_from(s: Seq<char>, p: Seq<char>, from: int)
    requires
        p.len() > 0,
        0 <= from <= s.len(),
    ensures
        join_spec(split_from(s, p, from), p) == s.subrange(from, s.len() as int),
    decreases s.len() - from,
{
    let m = next_match(s, p, from);
    lemma_next_match(s, p, from);
    if from <= m && m + p.len() <= s.len() {
        let rest = split_from(s, p, m + p.len());
        lemma_join_split_from(s, p, m + p.len());
        lemma_split_from_nonempty(s, p, m + p.len());
        lemma_join_prepend(s.subrange(from, m), rest, p);
        assert(s.subrange(m, m + p.len()) == p);
        assert(s.subrange(from, m) + p + s.subrange(m + p.len(), s.len() as int) =~= s.subrange(from, s.len() as int));
    } else {
        assert(join_spec(seq![s.subrange(from, s.len() as int)], p) == s.subrange(from, s.len() as int));
    }
}

/// The pieces of a split by the empty pattern, all but the last.
proof fn lemma_join_chars(s: Seq<char>, n: int)
    requires
        0 <= n <= s.len(),
    ensures
        join_spec(seq![Seq::<char>::empty()] + Seq::new(n as nat, |i: int| seq![s[i]]), Seq::empty()) == s.take(n),
    decreases n,
{
    let t = seq![Seq::<char>::empty()] + Seq::new(n as nat, |i: int| seq![s[i]]);
    if n == 0 {
        assert(t =~= seq![Seq::<char>::empty()]);
        assert(s.take(0) =~= Seq::<char>::empty());
    } else {
        lemma_join_chars(s, n - 1);
        let t0 = seq![Seq::<char>::empty()] + Seq::new((n - 1) as nat, |i: int| seq![s[i]]);
        assert(t.drop_last() =~= t0);
        assert(t.last() == seq![s[n - 1]]);
        assert(s.take(n - 1) + Seq::<char>::empty() + seq![s[n - 1]] =~= s.take(n));
    }
}

/// Splitting a string at a pattern and joining the pieces with the same
/// pattern gives the string back.
pub proof fn lemma_join_split(s: Seq<char>, p: Seq<char>)
    ensures
        join_spec(split_spec(s, p), p) == s,
{
    if p.len() == 0 {
        let t = seq![Seq::<char>::empty()] + Seq::new(s.len(), |i: int| seq![s[i]]);
        lemma_join_chars(s, s.len() as int);
        assert(split_spec(s, p) =~= t + seq![Seq::<char>::empty()]);
        assert((t + seq![Seq::<char>::empty()]).drop_last() =~= t);
        assert(s.take(s.len() as int) =~= s);
        assert(p =~= Seq::<char>::empty());
        assert(s + Seq::<char>::empty() + Seq::<char>::empty() =~= s);
    } else {
        lemma_join_split_from(s, p, 0);
        assert(s.subrange(0, s.len() as int) =~= s);
    }
}

proof fn lemma_replace_split_from(s: Seq<char>, p: Seq<char>, r: Seq<char>, from: int)
    requires
        p.len() > 0,
        0 <= from <= s.len(),
    ensures
        replace_from(s, p, r, from) == join_spec(split_from(s, p, from), r),
    decreases s.len() - from,
{
    let m = next_match(s, p, from);
    lemma_next_match(s, p, from);
    if from <= m && m + p.len() <= s.len() {
        let rest = split_from(s, p, m + p.len());
        lemma_replace_split_from(s, p, r, m + p.len());
        lemma_split_from_nonempty(s, p, m + p.len());
        lemma_join_prepend(s.subrange(from, m), rest, r);
    } else {
        assert(join_spec(seq![s.subrange(from, s.len() as int)], r) == s.subrange(from, s.len() as int));
    }
}

/// Each character of `s` preceded by `r`.
pub open spec fn r_before_each(s: Seq<char>, r: Seq<char>) -> Seq<char>
    decreases s.len(),
{
    if s.len() == 0 {
        Seq::empty()
    } else {
        r_before_each(s.drop_last(), r) + r + seq![s.last()]
    }
}

proof fn lemma_join_char_pieces(s: Seq<char>, r: Seq<char>, n: int)
    requires
        0 <= n <= s.len(),
    ensures
        join_spec(seq![Seq::<char>::empty()] + Seq::new(n as nat, |i: int| seq![s[i]]), r) == r_before_each(s.take(n), r),
    decreases n,
{
    let t = seq![Seq::<char>::empty()] + Seq::new(n as nat, |i: int| seq![s[i]]);
    if n == 0 {
        assert(t =~= seq![Seq::<char>::empty()]);
        assert(s.take(0) =~= Seq::<char>::empty());
    } else {
        lemma_join_char_pieces(s, r, n - 1);
        let t0 = seq![Seq::<char>::empty()] + Seq::new((n - 1) as nat, |i: int| seq![s[i]]);
        assert(t.drop_last() =~= t0);
        assert(t.last() == seq![s[n - 1]]);
        assert(s.take(n).drop_last() =~= s.take(n - 1));
        assert(s.take(n).last() == s[n - 1]);
    }
}

proof fn lemma_r_before_each_first(s: Seq<char>, r: Seq<char>)
    requires
        s.len() > 0,
    ensures
        r_before_each(s, r) == r + seq![s[0]] + r_before_each(s.drop_first(), r),
    decreases s.len(),
{
    if s.len() == 1 {
        assert(s.drop_last() =~= Seq::<char>::empty());
        assert(s.drop_first() =~= Seq::<char>::empty());
        assert(Seq::<char>::empty() + r + seq![s.last()] =~= r + seq![s[0]] + Seq::<char>::empty());
    } else {
        lemma_r_before_each_first(s.drop_last(), r);
        assert(s.drop_last().drop_first() =~= s.drop_first().drop_last());
        assert(s.drop_first().last() == s.last());
        assert(s.drop_last()[0] == s[0]);
        let q = r_before_each(s.drop_first().drop_last(), r);
        assert(r + seq![s[0]] + q + r + seq![s.last()] =~= r + seq![s[0]] + (q + r + seq![s.last()]));
    }
}

proof fn lemma_interleave_r_before_each(s: Seq<char>, r: Seq<char>)
    ensures
        interleave(s, r) == r_before_each(s, r) + r,
    decreases s.len(),
{
    if s.len() == 0 {
        assert(Seq::<char>::empty() + r =~= r);
    } else {
        lemma_interleave_r_before_each(s.drop_first(), r);
        lemma_r_before_each_first(s, r);
        let q = r_before_each(s.drop_first(), r);
        assert(r + seq![s[0]] + (q + r) =~= (r + seq![s[0]] + q) + r);
    }
}

/// Replacing every occurrence of a pattern is splitting at it and joining
/// the pieces with the replacement; for the empty pattern, the replacement
/// goes before every character and at the end.
pub proof fn lemma_replace_is_split_join(s: Seq<char>, p: Seq<char>, r: Seq<char>)
    ensures
        replace_spec(s, p, r) == join_spec(split_spec(s, p), r),
{
    if p.len() == 0 {
        let t = seq![Seq::<char>::empty()] + Seq::new(s.len(), |i: int| seq![s[i]]);
        lemma_join_char_pieces(s, r, s.len() as int);
        lemma_interleave_r_before_each(s, r);
        assert(split_spec(s, p) =~= t + seq![Seq::<char>::empty()]);
        assert((t + seq![Seq::<char>::empty()]).drop_last() =~= t);
        assert(s.take(s.len() as int) =~= s);
        assert(r_before_each(s, r) + r + Seq::<char>::empty() =~= r_before_each(s, r) + r);
    } else {
        lemma_replace_split_from(s, p, r, 0);
    }
}

/// Replacing every occurrence of a pattern with itself changes nothing.
pub proof fn lemma_replace_same(s: Seq<char>, p: Seq<char>)
    ensures
        replace_spec(s, p, p) == s,
{
    lemma_replace_is_split_join(s, p, p);
    lemma_join_split(s, p);
}

proof fn lemma_count_split_from(s: Seq<char>, p: Seq<char>, from: int)
    requires
        p.len() > 0,
        0 <= from <= s.len(),
    ensures
        count_from(s, p, from) + 1 == split_from(s, p, from).len(),
    decreases s.len() - from,
{
    let m = next_match(s, p, from);
    lemma_next_match(s, p, from);
    if from <= m && m + p.len() <= s.len() {
        lemma_count_split_from(s, p, m + p.len());
    }
}

/// A string split at a non-empty pattern has one piece more than the
/// pattern has occurrences.
pub proof fn lemma_count_split(s: Seq<char>, p: Seq<char>)
    requires
        p.len() > 0,
    ensures
        count_spec(s, p) + 1 == split_spec(s, p).len(),
{
    lemma_count_split_from(s, p, 0);
}

/// Reversing a string twice gives it back.
pub proof fn lemma_reverse_involutive(s: Seq<char>)
    ensures
        s.reverse().reverse() == s,
{
    assert(s.reverse().reverse() =~= s);
}

} // verus!
