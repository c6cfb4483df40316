//! Character-level helpers shared by the string-producing parts of the library.
use vstd::prelude::*;

verus! {

/// The characters of a string slice, in order.
pub fn str_chars(s: &str) -> (v: Vec<char>)
    ensures
        v@ == s@,
{
    let mut v: Vec<char> = Vec::new();
    for c in it: s.chars()
        invariant
            it.seq() == s@,
            v@ == s@.take(it.index() as int),
    {
        v.push(c);
    }
    v
}

} // verus!

verus! {

/// Builds a `String` from a slice of characters.
pub fn string_from_chars(v: &[char]) -> (s: String)
    ensures
        s@ == v@,
{
    let mut out = String::new();
    let mut i: usize = 0;
    while i < v.len()
        invariant
            i <= v.len(),
            out@ == v@.take(i as int),
        decreases v.len() - i,
    {
        out.push(v[i]);
        proof { assert(v@.take(i + 1) == v@.take(i as int).push(v@[i as int])); }
        i = i + 1;
    }
    proof { assert(v@.take(v.len() as int) == v@); }
    out
}

/// Appends the characters of `s` to `out`.
pub fn append_str(out: &mut Vec<char>, s: &str)
    ensures
        final(out)@ == old(out)@ + s@,
{
    let mut v = str_chars(s);
    out.append(&mut v);
}

/// Whether `c` has the Unicode `Uppercase` property (`char::is_uppercase`).
pub uninterp spec fn char_is_uppercase(c: char) -> bool;

/// Whether `c` has the Unicode `Lowercase` property (`char::is_lowercase`).
pub uninterp spec fn char_is_lowercase(c: char) -> bool;

/// The characters that `char::to_lowercase` yields for `c`.
pub uninterp spec fn char_lowercase(c: char) -> Seq<char>;

/// The characters that `char::to_uppercase` yields for `c`.
pub uninterp spec fn char_uppercase(c: char) -> Seq<char>;

/// ASCII letters `A` to `Z`.
pub open spec fn is_ascii_upper(c: char) -> bool {
    'A' <= c <= 'Z'
}

/// ASCII letters `a` to `z`.
pub open spec fn is_ascii_lower(c: char) -> bool {
    'a' <= c <= 'z'
}

/// The ASCII lower-case form of an ASCII upper-case letter.
pub open spec fn ascii_lower_of(c: char) -> char {
    ((c as u32) + 32) as char
}

/// The ASCII upper-case form of an ASCII lower-case letter.
pub open spec fn ascii_upper_of(c: char) -> char {
    ((c as u32) - 32) as char
}

/// Whether `c` is ASCII.
pub open spec fn is_ascii_char(c: char) -> bool {
    (c as u32) < 128
}

/// Every character of `s` is ASCII.
pub open spec fn all_ascii(s: Seq<char>) -> bool {
    forall|i: int| 0 <= i < s.len() ==> is_ascii_char(#[trigger] s[i])
}

/// The `Uppercase` property: on ASCII exactly `A` to `Z`.
pub open spec fn uppercase_property(c: char) -> bool {
    if is_ascii_char(c) { is_ascii_upper(c) } else { char_is_uppercase(c) }
}

/// The `Lowercase` property: on ASCII exactly `a` to `z`.
pub open spec fn lowercase_property(c: char) -> bool {
    if is_ascii_char(c) { is_ascii_lower(c) } else { char_is_lowercase(c) }
}

/// The full lower-case mapping of `c`; ASCII maps one to one.
pub open spec fn lowercase_mapping(c: char) -> Seq<char> {
    if is_ascii_upper(c) {
        seq![ascii_lower_of(c)]
    } else if is_ascii_char(c) {
        seq![c]
    } else {
        char_lowercase(c)
    }
}

/// The full upper-case mapping of `c`; ASCII maps one to one.
pub open spec fn uppercase_mapping(c: char) -> Seq<char> {
    if is_ascii_lower(c) {
        seq![ascii_upper_of(c)]
    } else if is_ascii_char(c) {
        seq![c]
    } else {
        char_uppercase(c)
    }
}

/// `char::is_uppercase`.
///
/// Trusted: the result is the Unicode `Uppercase` property of `c`, named by
/// `char_is_uppercase`; on ASCII input it holds exactly for `A` to `Z`, as the
/// std documentation states.
#[verifier::external_body]
pub fn is_uppercase(c: char) -> (b: bool)
    ensures
        b == char_is_uppercase(c),
        b == uppercase_property(c),
{
    c.is_uppercase()
}

/// `char::is_lowercase`.
///
/// Trusted: the result is the Unicode `Lowercase` property of `c`, named by
/// `char_is_lowercase`; on ASCII input it holds exactly for `a` to `z`.
#[verifier::external_body]
pub fn is_lowercase(c: char) -> (b: bool)
    ensures
        b == char_is_lowercase(c),
        b == lowercase_property(c),
{
    c.is_lowercase()
}

/// Whether `c` is alphabetic or numeric in Unicode (`char::is_alphanumeric`).
pub uninterp spec fn char_is_alphanumeric(c: char) -> bool;

/// ASCII digits `0` to `9`.
pub open spec fn is_ascii_digit(c: char) -> bool {
    '0' <= c <= '9'
}

/// The alphanumeric property: on ASCII exactly letters and digits.
pub open spec fn alphanumeric_property(c: char) -> bool {
    if is_ascii_char(c) {
        is_ascii_upper(c) || is_ascii_lower(c) || is_ascii_digit(c)
    } else {
        char_is_alphanumeric(c)
    }
}

/// `char::is_alphanumeric`.
///
/// Trusted: the result is the Unicode `Alphabetic` or `Numeric` property of
/// `c`, named by `char_is_alphanumeric`; on ASCII input it holds exactly for
/// letters and digits.
#[verifier::external_body]
pub fn is_alphanumeric(c: char) -> (b: bool)
    ensures
        b == char_is_alphanumeric(c),
        b == alphanumeric_property(c),
{
    c.is_alphanumeric()
}

/// The ASCII lower-case form of `c`: other characters are unchanged.
pub open spec fn to_ascii_lower(c: char) -> char {
    if is_ascii_upper(c) { ascii_lower_of(c) } else { c }
}

/// `char::to_ascii_lowercase`.
pub fn ascii_lowercase_char(c: char) -> (r: char)
    ensures
        r == to_ascii_lower(c),
{
    if 'A' <= c && c <= 'Z' {
        let code: u32 = c as u32 + 32;
        proof {
            assert(0x61 <= code <= 0x7a);
        }
        char_from_ascii(code)
    } else {
        c
    }
}

/// The character with code `code`, for an ASCII lower-case letter.
fn char_from_ascii(code: u32) -> (c: char)
    requires
        0x61 <= code <= 0x7a,
    ensures
        c as u32 == code,
{
    let b: u8 = code as u8;
    b as char
}

/// `char::to_lowercase`, collected.
///
/// Trusted: the iterator yields at least one character (the character itself
/// when it has no lower-case mapping); an ASCII character maps to its ASCII
/// lower-case form, as the std documentation of `to_ascii_lowercase` agrees.
/// The mapping is Unicode's lower-case mapping, which the documentation cites;
/// in it, a non-ASCII character maps to an ASCII first character only for
/// U+0130 (to `i`) and U+212A (to `k`), so such a character is an ASCII
/// lower-case letter.
#[verifier::external_body]
pub fn to_lowercase_chars(c: char) -> (v: Vec<char>)
    ensures
        v@ == char_lowercase(c),
        v@ == lowercase_mapping(c),
        v@.len() >= 1,
        !is_ascii_char(c) && is_ascii_char(v@[0]) ==> is_ascii_lower(v@[0]),
{
    c.to_lowercase().collect()
}

/// `char::to_uppercase`, collected.
///
/// Trusted: the iterator yields at least one character (the character itself
/// when it has no upper-case mapping); an ASCII character maps to its ASCII
/// upper-case form.
#[verifier::external_body]
pub fn to_uppercase_chars(c: char) -> (v: Vec<char>)
    ensures
        v@ == char_uppercase(c),
        v@ == uppercase_mapping(c),
        v@.len() >= 1,
{
    c.to_uppercase().collect()
}

} // verus!

verus! {

/// The index of the first occurrence of `c` in `s`, or -1.
pub open spec fn first_index_of(s: Seq<char>, c: char) -> int
    decreases s.len(),
{
    if s.len() == 0 {
        -1
    } else if s[0] == c {
        0
    } else {
        let r = first_index_of(s.drop_first(), c);
        if r < 0 { -1 } else { r + 1 }
    }
}

/// The index of the last occurrence of `c` in `s`, or -1.
pub open spec fn last_index_of(s: Seq<char>, c: char) -> int
    decreases s.len(),
{
    if s.len() == 0 {
        -1
    } else if s.last() == c {
        s.len() - 1
    } else {
        last_index_of(s.drop_last(), c)
    }
}

pub proof fn lemma_first_index_of(s: Seq<char>, c: char)
    ensures
        -1 <= first_index_of(s, c) < s.len(),
        first_index_of(s, c) >= 0 ==> s[first_index_of(s, c)] == c,
        forall|j: int| 0 <= j < s.len() && (first_index_of(s, c) < 0 || j < first_index_of(s, c))
            ==> s[j] != c,
    decreases s.len(),
{
    if s.len() > 0 && s[0] != c {
        lemma_first_index_of(s.drop_first(), c);
        assert forall|j: int| 0 <= j < s.len() && (first_index_of(s, c) < 0 || j < first_index_of(s, c))
            implies s[j] != c by {
            if j > 0 {
                assert(s[j] == s.drop_first()[j - 1]);
            }
        }
    }
}

pub proof fn lemma_last_index_of(s: Seq<char>, c: char)
    ensures
        -1 <= last_index_of(s, c) < s.len(),
        last_index_of(s, c) >= 0 ==> s[last_index_of(s, c)] == c,
        forall|j: int| last_index_of(s, c) < j < s.len() && 0 <= j ==> s[j] != c,
    decreases s.len(),
{
    if s.len() > 0 && s.last() != c {
        lemma_last_index_of(s.drop_last(), c);
        assert forall|j: int| last_index_of(s, c) < j < s.len() && 0 <= j implies s[j] != c by {
            if j < s.len() - 1 {
                assert(s[j] == s.drop_last()[j]);
            }
        }
    }
}

/// Characterizes `first_index_of` by its defining properties.
pub proof fn lemma_first_index_of_unique(s: Seq<char>, c: char, i: int)
    requires
        -1 <= i < s.len(),
        i >= 0 ==> s[i] == c,
        forall|j: int| 0 <= j < s.len() && (i < 0 || j < i) ==> s[j] != c,
    ensures
        first_index_of(s, c) == i,
{
    lemma_first_index_of(s, c);
    let f = first_index_of(s, c);
    if f >= 0 && (i < 0 || f < i) {
        assert(s[f] != c);
    }
    if i >= 0 && (f < 0 || i < f) {
        assert(s[i] != c);
    }
}

/// Characterizes `last_index_of` by its defining properties.
pub proof fn lemma_last_index_of_unique(s: Seq<char>, c: char, i: int)
    requires
        -1 <= i < s.len(),
        i >= 0 ==> s[i] == c,
        forall|j: int| i < j < s.len() && 0 <= j ==> s[j] != c,
    ensures
        last_index_of(s, c) == i,
{
    lemma_last_index_of(s, c);
    let f = last_index_of(s, c);
    if f > i {
        assert(s[f] != c);
    }
    if i > f {
        assert(s[i] != c);
    }
}

/// Finds the first occurrence of `c` in `v`.
pub fn find_first(v: &Vec<char>, c: char) -> (r: Option<usize>)
    ensures
        match r {
            Some(i) => i as int == first_index_of(v@, c),
            None => first_index_of(v@, c) < 0,
        },
{
    let mut i: usize = 0;
    while i < v.len()
        invariant
            i <= v.len(),
            forall|j: int| 0 <= j < i ==> v@[j] != c,
        decreases v.len() - i,
    {
        if v[i] == c {
            proof { lemma_first_index_of_unique(v@, c, i as int); }
            return Some(i);
        }
        i = i + 1;
    }
    proof { lemma_first_index_of_unique(v@, c, -1); }
    None
}

/// Finds the last occurrence of `c` in `v`.
pub fn find_last(v: &Vec<char>, c: char) -> (r: Option<usize>)
    ensures
        match r {
            Some(i) => i as int == last_index_of(v@, c),
            None => last_index_of(v@, c) < 0,
        },
{
    let mut i: usize = v.len();
    while i > 0
        invariant
            i <= v.len(),
            forall|j: int| i <= j < v.len() ==> v@[j] != c,
        decreases i,
    {
        if v[i - 1] == c {
            proof { lemma_last_index_of_unique(v@, c, i - 1); }
            return Some(i - 1);
        }
        i = i - 1;
    }
    proof { lemma_last_index_of_unique(v@, c, -1); }
    None
}

/// The characters `v[lo..hi]` as a new vector.
pub fn slice_chars(v: &Vec<char>, lo: usize, hi: usize) -> (r: Vec<char>)
    requires
        lo <= hi <= v.len(),
    ensures
        r@ == v@.subrange(lo as int, hi as int),
{
    let mut r: Vec<char> = Vec::new();
    let mut i = lo;
    while i < hi
        invariant
            lo <= i <= hi <= v.len(),
            r@ == v@.subrange(lo as int, i as int),
        decreases hi - i,
    {
        r.push(v[i]);
        i = i + 1;
    }
    r
}

/// The characters `v[lo..hi]` as a string.
pub fn slice_string(v: &Vec<char>, lo: usize, hi: usize) -> (r: String)
    requires
        lo <= hi <= v.len(),
    ensures
        r@ == v@.subrange(lo as int, hi as int),
{
    let part = slice_chars(v, lo, hi);
    string_from_chars(part.as_slice())
}

} // verus!

verus! {

/// The Unicode `White_Space` property (PropList.txt).
pub open spec fn is_white_space(c: char) -> bool {
    ||| '\u{9}' <= c <= '\u{d}'
    ||| c == ' '
    ||| c == '\u{85}'
    ||| c == '\u{a0}'
    ||| c == '\u{1680}'
    ||| '\u{2000}' <= c <= '\u{200a}'
    ||| c == '\u{2028}'
    ||| c == '\u{2029}'
    ||| c == '\u{202f}'
    ||| c == '\u{205f}'
    ||| c == '\u{3000}'
}

/// Whether `c` has the Unicode `White_Space` property, as `char::is_whitespace`
/// documents it.
pub fn is_whitespace(c: char) -> (b: bool)
    ensures
        b == is_white_space(c),
{
    ('\u{9}' <= c && c <= '\u{d}') || c == ' ' || c == '\u{85}' || c == '\u{a0}' || c == '\u{1680}'
        || ('\u{2000}' <= c && c <= '\u{200a}') || c == '\u{2028}' || c == '\u{2029}' || c == '\u{202f}'
        || c == '\u{205f}' || c == '\u{3000}'
}

/// What `str::to_uppercase` returns for a string with these characters.
pub uninterp spec fn str_uppercase(s: Seq<char>) -> Seq<char>;

/// What `str::to_lowercase` returns for a string with these characters.
pub uninterp spec fn str_lowercase(s: Seq<char>) -> Seq<char>;

/// Upper-cases the ASCII letters of an ASCII string.
pub open spec fn ascii_uppercase(s: Seq<char>) -> Seq<char> {
    s.map_values(|c: char| if is_ascii_lower(c) { ascii_upper_of(c) } else { c })
}

/// Lower-cases the ASCII letters of an ASCII string.
pub open spec fn ascii_lowercase(s: Seq<char>) -> Seq<char> {
    s.map_values(|c: char| if is_ascii_upper(c) { ascii_lower_of(c) } else { c })
}

/// `str::to_uppercase`.
///
/// Trusted: the result is the Unicode upper-case form of `s`, named by
/// `str_uppercase`; for ASCII input only the letters `a` to `z` change.
#[verifier::external_body]
pub fn str_to_uppercase(s: &str) -> (r: String)
    ensures
        r@ == str_uppercase(s@),
        all_ascii(s@) ==> r@ == ascii_uppercase(s@),
{
    s.to_uppercase()
}

/// `str::to_lowercase`.
///
/// Trusted: the result is the Unicode lower-case form of `s`, named by
/// `str_lowercase`; for ASCII input only the letters `A` to `Z` change.
#[verifier::external_body]
pub fn str_to_lowercase(s: &str) -> (r: String)
    ensures
        r@ == str_lowercase(s@),
        all_ascii(s@) ==> r@ == ascii_lowercase(s@),
{
    s.to_lowercase()
}

} // verus!

verus! {

/// `String::push`.
///
/// Trusted: std documents that the character is appended to the end.
pub assume_specification[ std::string::String::push ](s: &mut std::string::String, ch: char)
    ensures
        final(s)@ == old(s)@.push(ch),
;

/// `String::push_str`.
///
/// Trusted: std documents that the string slice is appended to the end.
pub assume_specification[ std::string::String::push_str ](s: &mut std::string::String, string: &str)
    ensures
        final(s)@ == old(s)@ + string@,
;

} // verus!

verus! {

/// Whether two character vectors are equal.
pub fn chars_eq(a: &Vec<char>, b: &Vec<char>) -> (r: bool)
    ensures
        r == (a@ == b@),
{
    if a.len() != b.len() {
        return false;
    }
    let mut i: usize = 0;
    while i < a.len()
        invariant
            i <= a.len() == b.len(),
            forall|j: int| 0 <= j < i ==> a@[j] == b@[j],
        decreases a.len() - i,
    {
        if a[i] != b[i] {
            return false;
        }
        i = i + 1;
    }
    assert(a@ == b@);
    true
}

/// Whether a string equals a literal.
pub fn str_eq(a: &str, b: &str) -> (r: bool)
    ensures
        r == (a@ == b@),
{
    let x = str_chars(a);
    let y = str_chars(b);
    chars_eq(&x, &y)
}

} // verus!

verus! {

/// `s.push(x)` contains `y` exactly when `s` does or `x` is `y`.
pub proof fn lemma_push_contains<A>(s: Seq<A>, x: A, y: A)
    ensures
        s.push(x).contains(y) <==> (s.contains(y) || x == y),
{
    let t = s.push(x);
    if s.contains(y) {
        let k = choose|k: int| 0 <= k < s.len() && s[k] == y;
        assert(t[k] == y);
    }
    if x == y {
        assert(t[s.len() as int] == y);
    }
    if t.contains(y) {
        let k = choose|k: int| 0 <= k < t.len() && t[k] == y;
        if k < s.len() {
            assert(s[k] == y);
        }
    }
}

} // verus!
