//! Identifier case conversion, WIT package identifiers, and the marker types
//! that stand for WIT `stream<T>` and `future<T>`.
use vstd::prelude::*;
use crate::text::{
    uppercase_property, lowercase_property, lowercase_mapping, is_ascii_char, is_lowercase, is_uppercase, append_str,
    str_chars, string_from_chars, to_lowercase_chars, is_ascii_upper, ascii_lower_of,
    all_ascii, first_index_of, last_index_of, lemma_last_index_of, lemma_first_index_of, lemma_first_index_of_unique, lemma_last_index_of_unique, find_first, find_last, slice_chars, slice_string,
};

verus! {

/// Marker type that maps to WIT `stream<T>`; it never carries a value.
pub struct Stream<T> {
    marker: core::marker::PhantomData<T>,
}

impl<T> Stream<T> {
    /// Creates the marker value.
    pub fn new() -> (s: Self) {
        Stream { marker: core::marker::PhantomData }
    }
}

/// Marker type that maps to WIT `future<T>`; it never carries a value.
pub struct Future<T> {
    marker: core::marker::PhantomData<T>,
}

impl<T> Future<T> {
    /// Creates the marker value.
    pub fn new() -> (s: Self) {
        Future { marker: core::marker::PhantomData }
    }
}

/// The state of the kebab-case conversion after a prefix of the input:
/// the output so far, whether the last character was upper-case, and whether
/// the last character was a separator (`_` or `-`).
pub type KebabState = (Seq<char>, bool, bool);

/// Whether `c` separates words in an identifier.
pub open spec fn is_word_separator(c: char) -> bool {
    c == '_' || c == '-'
}

/// One step of the conversion: `c` is the current character and `next` the
/// one after it, if any.
pub open spec fn kebab_step(st: KebabState, c: char, next: Option<char>) -> KebabState {
    let (out, prev_upper, prev_sep) = st;
    if is_word_separator(c) {
        (if out.len() > 0 && !prev_sep { out.push('-') } else { out }, false, true)
    } else if uppercase_property(c) {
        let next_lower = match next {
            Some(n) => lowercase_property(n),
            None => false,
        };
        let out1 = if out.len() > 0 && !prev_sep && (!prev_upper || next_lower) {
            out.push('-')
        } else {
            out
        };
        (out1.push(lowercase_mapping(c)[0]), true, false)
    } else {
        (out.push(c), false, false)
    }
}

/// The character after position `i - 1`, that is `s[i]`, if there is one.
pub open spec fn char_after(s: Seq<char>, i: int) -> Option<char> {
    if 0 <= i < s.len() { Some(s[i]) } else { None }
}

/// The conversion state after the first `n` characters of `s`.
pub open spec fn kebab_prefix(s: Seq<char>, n: nat) -> KebabState
    decreases n,
{
    if n == 0 {
        (Seq::empty(), false, false)
    } else {
        kebab_step(kebab_prefix(s, (n - 1) as nat), s[n - 1], char_after(s, n as int))
    }
}

/// The kebab-case form of an identifier: words split at separators and at
/// lower-to-upper and acronym boundaries, joined by single hyphens, in lower case.
pub open spec fn kebab_case(s: Seq<char>) -> Seq<char> {
    kebab_prefix(s, s.len()).0
}

/// Whether a character may stand in a kebab-case identifier as a letter
/// position: neither `_`, `-` nor an ASCII upper-case letter.
pub open spec fn kebab_char(c: char) -> bool {
    c != '_' && c != '-' && !is_ascii_upper(c)
}

/// One step keeps the kebab shape, given that the lower-case form of a
/// non-ASCII upper-case character is a kebab letter.
proof fn lemma_kebab_step_shape(st: KebabState, c: char, next: Option<char>)
    requires
        is_kebab(st.0),
        st.0.len() > 0 && st.0.last() == '-' ==> st.2,
        uppercase_property(c) && !is_ascii_char(c) ==> kebab_char(lowercase_mapping(c)[0]),
    ensures
        is_kebab(kebab_step(st, c, next).0),
        kebab_step(st, c, next).0.len() > 0 && kebab_step(st, c, next).0.last() == '-' ==> kebab_step(st, c, next).2,
{
    let out = kebab_step(st, c, next).0;
    assert forall|i: int| 0 <= i < out.len() implies #[trigger] out[i] != '_' && !is_ascii_upper(out[i]) by {
        if i < st.0.len() {
            assert(out[i] == st.0[i]);
        }
    }
    assert forall|i: int| 0 <= i < out.len() - 1 implies !(#[trigger] out[i] == '-' && out[i + 1] == '-') by {
        if i + 1 < st.0.len() {
            assert(out[i] == st.0[i] && out[i + 1] == st.0[i + 1]);
        }
    }
}

/// Convert a camelCase, PascalCase, or snake_case identifier to kebab-case.
/// The result is in kebab case, whatever the input.
pub fn to_kebab_case(s: &str) -> (r: String)
    ensures
        r@ == kebab_case(s@),
        is_kebab(r@),
{
    let chars = str_chars(s);
    let mut out: Vec<char> = Vec::new();
    let mut prev_upper = false;
    let mut prev_sep = false;
    let mut i: usize = 0;
    while i < chars.len()
        invariant
            i <= chars.len(),
            chars@ == s@,
            kebab_prefix(s@, i as nat) == (out@, prev_upper, prev_sep),
            is_kebab(out@),
            out@.len() > 0 && out@.last() == '-' ==> prev_sep,
        decreases chars.len() - i,
    {
        let c = chars[i];
        let ghost st = (out@, prev_upper, prev_sep);
        let ghost nx = char_after(s@, i + 1);
        if c == '_' || c == '-' {
            if out.len() > 0 && !prev_sep {
                out.push('-');
            }
            prev_sep = true;
            prev_upper = false;
        } else if is_uppercase(c) {
            let next_lower = if i + 1 < chars.len() {
                is_lowercase(chars[i + 1])
            } else {
                false
            };
            if out.len() > 0 && !prev_sep && (!prev_upper || next_lower) {
                out.push('-');
            }
            let lower = to_lowercase_chars(c);
            proof { lemma_kebab_step_shape(st, c, nx); }
            out.push(lower[0]);
            prev_upper = true;
            prev_sep = false;
        } else {
            proof { lemma_kebab_step_shape(st, c, nx); }
            out.push(c);
            prev_upper = false;
            prev_sep = false;
        }
        proof {
            if c == '_' || c == '-' {
                lemma_kebab_step_shape(st, c, nx);
            }
            assert(kebab_prefix(s@, (i + 1) as nat) == kebab_step(st, c, nx));
        }
        i = i + 1;
    }
    string_from_chars(out.as_slice())
}

} // verus!

verus! {

/// A parsed WIT package identifier (namespace, name, optional version).
pub type WitPackageId = (String, String, Option<String>);

/// The view of an optional string.
pub open spec fn opt_view(o: Option<String>) -> Option<Seq<char>> {
    match o {
        Some(s) => Some(s@),
        None => None,
    }
}

/// The part of a package identifier before its last `@`, and the version after it.
pub open spec fn split_version(s: Seq<char>) -> (Seq<char>, Option<Seq<char>>) {
    let at = last_index_of(s, '@');
    if at < 0 {
        (s, None)
    } else {
        (s.take(at), Some(s.skip(at + 1)))
    }
}

/// The error message for an identifier without a `namespace:name` part.
pub open spec fn package_id_error(s: Seq<char>) -> Seq<char> {
    "invalid WIT package ID: expected 'namespace:name', got '"@ + s + "'"@
}

/// Whether `s` parses as a package identifier, and into which parts.
pub open spec fn parses_as_package_id(s: Seq<char>, ns: Seq<char>, name: Seq<char>, ver: Option<Seq<char>>) -> bool {
    let (rest, version) = split_version(s);
    let colon = first_index_of(rest, ':');
    &&& colon >= 0
    &&& ns == rest.take(colon)
    &&& name == rest.skip(colon + 1)
    &&& ver == version
}

/// Whether `s` has a `:` before its last `@` (or anywhere, without `@`).
pub open spec fn has_package_colon(s: Seq<char>) -> bool {
    first_index_of(split_version(s).0, ':') >= 0
}

/// Parse a WIT package identifier string like `myorg:my-pkg@1.0.0` into
/// `(namespace, name, optional_version)`. The version is what follows the
/// last `@`; the namespace is what precedes the first `:` before it.
pub fn parse_wit_package_id(s: &str) -> (r: Result<WitPackageId, String>)
    ensures
        match r {
            Ok((ns, name, ver)) => parses_as_package_id(s@, ns@, name@, opt_view(ver)),
            Err(e) => !has_package_colon(s@) && e@ == package_id_error(s@),
        },
{
    let chars = str_chars(s);
    proof { lemma_last_index_of(s@, '@'); }
    let (rest_end, version) = match find_last(&chars, '@') {
        Some(at) => (at, Some(slice_string(&chars, at + 1, chars.len()))),
        None => (chars.len(), None),
    };
    let rest = slice_chars(&chars, 0, rest_end);
    proof {
        assert(rest@ == split_version(s@).0);
        lemma_first_index_of(rest@, ':');
    }
    match find_first(&rest, ':') {
        Some(colon) => {
            let ns = slice_string(&rest, 0, colon);
            let name = slice_string(&rest, colon + 1, rest.len());
            Ok((ns, name, version))
        },
        None => {
            let mut msg: Vec<char> = Vec::new();
            append_str(&mut msg, "invalid WIT package ID: expected 'namespace:name', got '");
            append_str(&mut msg, s);
            append_str(&mut msg, "'");
            Err(string_from_chars(msg.as_slice()))
        },
    }
}

} // verus!

verus! {

/// `s` is in kebab case: no `_`, no ASCII upper-case letter, no leading `-`,
/// and no two hyphens in a row.
pub open spec fn is_kebab(s: Seq<char>) -> bool {
    &&& forall|i: int| 0 <= i < s.len() ==> #[trigger] s[i] != '_' && !is_ascii_upper(s[i])
    &&& s.len() > 0 ==> s[0] != '-'
    &&& forall|i: int| 0 <= i < s.len() - 1 ==> !(#[trigger] s[i] == '-' && s[i + 1] == '-')
}

proof fn lemma_kebab_prefix_shape(s: Seq<char>, n: nat)
    requires
        all_ascii(s),
        n <= s.len(),
    ensures
        is_kebab(kebab_prefix(s, n).0),
        all_ascii(kebab_prefix(s, n).0),
        kebab_prefix(s, n).0.len() > 0 && kebab_prefix(s, n).0.last() == '-' ==> kebab_prefix(s, n).2,
    decreases n,
{
    if n > 0 {
        lemma_kebab_prefix_shape(s, (n - 1) as nat);
        let st = kebab_prefix(s, (n - 1) as nat);
        let c = s[n - 1];
        assert(is_ascii_char(c));
        let out = kebab_prefix(s, n).0;
        assert forall|i: int| 0 <= i < out.len() implies is_ascii_char(#[trigger] out[i]) by {
            if i < st.0.len() {
                assert(out[i] == st.0[i]);
            }
        }
        assert forall|i: int| 0 <= i < out.len() implies #[trigger] out[i] != '_' && !is_ascii_upper(out[i]) by {
            if i < st.0.len() {
                assert(out[i] == st.0[i]);
            }
        }
        assert forall|i: int| 0 <= i < out.len() - 1 implies !(#[trigger] out[i] == '-' && out[i + 1] == '-') by {
            if i + 1 < st.0.len() {
                assert(out[i] == st.0[i] && out[i + 1] == st.0[i + 1]);
            }
        }
    }
}

/// Law: on ASCII input, the result of the conversion is in kebab case.
pub proof fn lemma_kebab_case_is_kebab(s: Seq<char>)
    requires
        all_ascii(s),
    ensures
        is_kebab(kebab_case(s)),
        all_ascii(kebab_case(s)),
{
    lemma_kebab_prefix_shape(s, s.len());
}

proof fn lemma_kebab_prefix_fixed(t: Seq<char>, n: nat)
    requires
        all_ascii(t),
        is_kebab(t),
        n <= t.len(),
    ensures
        kebab_prefix(t, n).0 == t.take(n as int),
        kebab_prefix(t, n).2 == (n > 0 && t[n - 1] == '-'),
    decreases n,
{
    if n > 0 {
        lemma_kebab_prefix_fixed(t, (n - 1) as nat);
        let c = t[n - 1];
        assert(is_ascii_char(c));
        assert(c != '_' && !is_ascii_upper(c));
        if c == '-' {
            assert(n - 1 > 0);
            assert(!(t[n - 2] == '-' && t[n - 1] == '-'));
        }
        assert(t.take(n as int) == t.take(n - 1).push(c));
    }
}

/// Law: kebab-case ASCII identifiers are left unchanged by the conversion.
pub proof fn lemma_kebab_case_fixed_point(t: Seq<char>)
    requires
        all_ascii(t),
        is_kebab(t),
    ensures
        kebab_case(t) == t,
{
    lemma_kebab_prefix_fixed(t, t.len());
    assert(t.take(t.len() as int) == t);
}

/// Whether every upper-case character of `s` lower-cases to a character that
/// is a kebab letter and not itself upper-case: true of all ASCII text and
/// of letters with a lower-case form, false of upper-case letters without
/// one (such as U+1D400).
pub open spec fn lowers_cleanly(s: Seq<char>) -> bool {
    forall|i: int| 0 <= i < s.len() && uppercase_property(#[trigger] s[i]) ==>
        kebab_char(lowercase_mapping(s[i])[0]) && !uppercase_property(lowercase_mapping(s[i])[0])
}

proof fn lemma_kebab_prefix_clean(s: Seq<char>, n: nat)
    requires
        lowers_cleanly(s),
        n <= s.len(),
    ensures
        is_kebab(kebab_prefix(s, n).0),
        forall|i: int| 0 <= i < kebab_prefix(s, n).0.len() ==> !uppercase_property(#[trigger] kebab_prefix(s, n).0[i]),
        kebab_prefix(s, n).0.len() > 0 && kebab_prefix(s, n).0.last() == '-' ==> kebab_prefix(s, n).2,
    decreases n,
{
    if n > 0 {
        lemma_kebab_prefix_clean(s, (n - 1) as nat);
        let st = kebab_prefix(s, (n - 1) as nat);
        let c = s[n - 1];
        lemma_kebab_step_shape(st, c, char_after(s, n as int));
        let out = kebab_prefix(s, n).0;
        assert forall|i: int| 0 <= i < out.len() implies !uppercase_property(#[trigger] out[i]) by {
            if i < st.0.len() {
                assert(out[i] == st.0[i]);
            }
        }
    }
}

proof fn lemma_kebab_prefix_fixed_clean(t: Seq<char>, n: nat)
    requires
        is_kebab(t),
        forall|i: int| 0 <= i < t.len() ==> !uppercase_property(#[trigger] t[i]),
        n <= t.len(),
    ensures
        kebab_prefix(t, n).0 == t.take(n as int),
        kebab_prefix(t, n).2 == (n > 0 && t[n - 1] == '-'),
    decreases n,
{
    if n > 0 {
        lemma_kebab_prefix_fixed_clean(t, (n - 1) as nat);
        let c = t[n - 1];
        assert(c != '_' && !uppercase_property(c));
        if c == '-' {
            assert(n - 1 > 0);
            assert(!(t[n - 2] == '-' && t[n - 1] == '-'));
        }
        assert(t.take(n as int) == t.take(n - 1).push(c));
    }
}

/// Law: the conversion is idempotent on every input whose upper-case
/// characters lower-case cleanly; in particular on all ASCII input.
pub proof fn lemma_kebab_case_idempotent(s: Seq<char>)
    requires
        lowers_cleanly(s),
    ensures
        kebab_case(kebab_case(s)) == kebab_case(s),
{
    lemma_kebab_prefix_clean(s, s.len());
    let t = kebab_case(s);
    lemma_kebab_prefix_fixed_clean(t, t.len());
    assert(t.take(t.len() as int) == t);
}

/// Whether a kebab-case pass keeps the character at `j` of `t` as it is: an
/// upper-case character must lower-case to itself and stand where no hyphen
/// goes (first, after a hyphen, or after an upper-case character without a
/// lower-case one following).
pub open spec fn kept_at(t: Seq<char>, j: int) -> bool {
    uppercase_property(t[j]) ==> {
        &&& lowercase_mapping(t[j])[0] == t[j]
        &&& (j == 0 || t[j - 1] == '-' || (uppercase_property(t[j - 1])
            && !(char_after(t, j + 1) matches Some(n) && lowercase_property(n))))
    }
}

/// Whether a kebab-case pass keeps every character of `t`.
pub open spec fn kebab_kept(t: Seq<char>) -> bool {
    forall|j: int| 0 <= j < t.len() ==> #[trigger] kept_at(t, j)
}

proof fn lemma_kept_prefix(t: Seq<char>, n: nat)
    requires
        is_kebab(t),
        n <= t.len(),
        forall|j: int| 0 <= j < n ==> #[trigger] kept_at(t, j),
    ensures
        kebab_prefix(t, n) == (t.take(n as int), n > 0 && uppercase_property(t[n - 1]), n > 0 && t[n - 1] == '-'),
    decreases n,
{
    if n > 0 {
        lemma_kept_prefix(t, (n - 1) as nat);
        let c = t[n - 1];
        assert(kept_at(t, n - 1));
        assert(c != '_');
        if c == '-' {
            assert(n - 1 > 0);
            assert(!(t[n - 2] == '-' && t[n - 1] == '-'));
        }
        assert(t.take(n as int) == t.take(n - 1).push(c));
    }
}

proof fn lemma_prefix_grows(s: Seq<char>, m: nat, n: nat)
    requires
        m <= n <= s.len(),
    ensures
        kebab_prefix(s, m).0.len() <= kebab_prefix(s, n).0.len(),
        forall|i: int| 0 <= i < kebab_prefix(s, m).0.len() ==> #[trigger] kebab_prefix(s, n).0[i] == kebab_prefix(s, m).0[i],
    decreases n - m,
{
    if m < n {
        lemma_prefix_grows(s, m, (n - 1) as nat);
        let a = kebab_prefix(s, (n - 1) as nat).0;
        let b = kebab_prefix(s, n).0;
        assert(a.len() <= b.len());
        assert forall|i: int| 0 <= i < a.len() implies #[trigger] b[i] == a[i] by {}
    }
}

proof fn lemma_first_unkept(t: Seq<char>, k: int) -> (j: int)
    requires
        0 <= k < t.len(),
        !kept_at(t, k),
    ensures
        0 <= j <= k,
        !kept_at(t, j),
        forall|i: int| 0 <= i < j ==> #[trigger] kept_at(t, i),
    decreases k,
{
    if exists|i: int| 0 <= i < k && !kept_at(t, i) {
        let i = choose|i: int| 0 <= i < k && !kept_at(t, i);
        lemma_first_unkept(t, i)
    } else {
        k
    }
}

/// Law: a second kebab-case pass leaves the result of the first unchanged
/// exactly when the first pass's result keeps every character (no upper-case
/// character without a lower-case form is left where a hyphen would go).
/// Every result of `to_kebab_case` is kebab-shaped, as it ensures.
pub proof fn lemma_kebab_case_idempotent_exactly(s: Seq<char>)
    requires
        is_kebab(kebab_case(s)),
    ensures
        kebab_case(kebab_case(s)) == kebab_case(s) <==> kebab_kept(kebab_case(s)),
{
    let t = kebab_case(s);
    if kebab_kept(t) {
        lemma_kept_prefix(t, t.len());
        assert(t.take(t.len() as int) == t);
    } else {
        let k = choose|k: int| 0 <= k < t.len() && !kept_at(t, k);
        let j = lemma_first_unkept(t, k);
        lemma_kept_prefix(t, j as nat);
        let c = t[j];
        assert(uppercase_property(c));
        assert(c != '-' && c != '_');
        let p = kebab_prefix(t, (j + 1) as nat).0;
        assert(p.len() > j && p[j] != c);
        lemma_prefix_grows(t, (j + 1) as nat, t.len());
        assert(kebab_case(t)[j] == p[j]);
    }
}

/// ASCII text lower-cases cleanly.
pub proof fn lemma_ascii_lowers_cleanly(s: Seq<char>)
    requires
        all_ascii(s),
    ensures
        lowers_cleanly(s),
{
    assert forall|i: int| 0 <= i < s.len() && uppercase_property(#[trigger] s[i]) implies
        kebab_char(lowercase_mapping(s[i])[0]) && !uppercase_property(lowercase_mapping(s[i])[0]) by {
        assert(is_ascii_char(s[i]));
    }
}

/// The text `ns:name` followed by `@version` when there is a version.
pub open spec fn package_id_text(ns: Seq<char>, name: Seq<char>, ver: Option<Seq<char>>) -> Seq<char> {
    ns + seq![':'] + name + match ver {
        Some(v) => seq!['@'] + v,
        None => Seq::empty(),
    }
}

/// Law: a package identifier written as `ns:name[@version]` parses back into
/// its parts, when the namespace has neither `:` nor `@` and the name and the
/// version have no `@`.
pub proof fn lemma_package_id_roundtrip(ns: Seq<char>, name: Seq<char>, ver: Option<Seq<char>>)
    requires
        !ns.contains(':'),
        !ns.contains('@'),
        !name.contains('@'),
        ver matches Some(v) ==> !v.contains('@'),
    ensures
        parses_as_package_id(package_id_text(ns, name, ver), ns, name, ver),
{
    let t = package_id_text(ns, name, ver);
    let rest = ns + seq![':'] + name;
    match ver {
        Some(v) => {
            let at = rest.len() as int;
            assert(t[at] == '@');
            assert forall|j: int| at < j < t.len() && 0 <= j implies t[j] != '@' by {
                assert(t[j] == v[j - at - 1]);
            }
            lemma_last_index_of_unique(t, '@', at);
            assert(t.take(at) == rest);
            assert(t.skip(at + 1) == v);
        },
        None => {
            assert(t == rest);
            assert forall|j: int| -1 < j < t.len() && 0 <= j implies t[j] != '@' by {
                if j < ns.len() {
                    assert(t[j] == ns[j]);
                } else if j > ns.len() {
                    assert(t[j] == name[j - ns.len() - 1]);
                }
            }
            lemma_last_index_of_unique(t, '@', -1);
        },
    }
    let colon = ns.len() as int;
    assert(rest[colon] == ':');
    assert forall|j: int| 0 <= j < rest.len() && j < colon implies rest[j] != ':' by {
        assert(rest[j] == ns[j]);
    }
    lemma_first_index_of_unique(rest, ':', colon);
    assert(rest.take(colon) == ns);
    assert(rest.skip(colon + 1) == name);
}

} // verus!
