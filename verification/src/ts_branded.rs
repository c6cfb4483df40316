//! Branded numeric types: the well-known names (`u32`, `s64`, ...) that a
//! TypeScript module imports or declares to say which WIT type it means.
use vstd::prelude::*;
use crate::text::str_eq;
use crate::ts_collect::{branded_type_names, branded_type_name_list};
use crate::ts_types::{copy_wit_type, WitTy, WitType};
use crate::ts_collect::KeywordType;
use crate::ts_syntax::{BrandEvent, TsSignature, TsType, TsTypeName};

verus! {

/// The WIT type of the `j`-th well-known branded name.
pub open spec fn branded_type_at(j: int) -> WitTy {
    if j == 0 {
        WitTy::U8
    } else if j == 1 {
        WitTy::U16
    } else if j == 2 {
        WitTy::U32
    } else if j == 3 {
        WitTy::U64
    } else if j == 4 {
        WitTy::S8
    } else if j == 5 {
        WitTy::S16
    } else if j == 6 {
        WitTy::S32
    } else if j == 7 {
        WitTy::S64
    } else if j == 8 {
        WitTy::F32
    } else if j == 9 {
        WitTy::F64
    } else {
        WitTy::Char
    }
}

/// The WIT type that a well-known branded name stands for.
pub open spec fn branded_name_type(name: Seq<char>) -> Option<WitTy> {
    let j = branded_type_names().index_of_first(name);
    match j {
        Some(k) => Some(branded_type_at(k)),
        None => None,
    }
}

/// Law: a name has a branded type exactly when it is one of the well-known
/// branded names, and that type is the one whose WIT spelling is the name.
pub proof fn lemma_branded_name_spells_its_type(n: Seq<char>)
    ensures
        branded_type_names().contains(n) <==> branded_name_type(n) is Some,
        branded_name_type(n) matches Some(t) ==> crate::ts_types::ty_text(t) == n,
{
    branded_type_names().index_of_first_ensures(n);
    if let Some(k) = branded_type_names().index_of_first(n) {
        assert(0 <= k < 11);
        assert(branded_type_names()[k] == n);
        assert(crate::ts_types::ty_text(branded_type_at(k)) == branded_type_names()[k]);
    }
}

fn branded_type_exec(j: usize) -> (t: WitType)
    requires
        j < 11,
    ensures
        t@ == branded_type_at(j as int),
{
    if j == 0 {
        WitType::U8
    } else if j == 1 {
        WitType::U16
    } else if j == 2 {
        WitType::U32
    } else if j == 3 {
        WitType::U64
    } else if j == 4 {
        WitType::S8
    } else if j == 5 {
        WitType::S16
    } else if j == 6 {
        WitType::S32
    } else if j == 7 {
        WitType::S64
    } else if j == 8 {
        WitType::F32
    } else if j == 9 {
        WitType::F64
    } else {
        WitType::Char
    }
}

/// Look up a branded type name in the well-known list.
pub fn lookup_branded_name(name: &str) -> (r: Option<WitType>)
    ensures
        match r {
            Some(t) => branded_name_type(name@) == Some(t@),
            None => branded_name_type(name@) is None,
        },
{
    let names = branded_type_name_list();
    let mut i: usize = 0;
    while i < names.len()
        invariant
            i <= names.len(),
            names@.len() == branded_type_names().len(),
            forall|j: int| 0 <= j < names@.len() ==> #[trigger] names@[j]@ == branded_type_names()[j],
            forall|j: int| 0 <= j < i ==> branded_type_names()[j] != name@,
        decreases names.len() - i,
    {
        if str_eq(names[i], name) {
            proof {
                branded_type_names().index_of_first_ensures(name@);
            }
            return Some(branded_type_exec(i));
        }
        i = i + 1;
    }
    proof {
        branded_type_names().index_of_first_ensures(name@);
    }
    None
}

/// The TypeScript names that stand for WIT types in a program: each name once.
pub struct BrandedTypeMap {
    entries: Vec<(String, WitType)>,
}

/// The entry for `name`, if any.
pub open spec fn branded_entry(entries: Seq<(Seq<char>, WitTy)>, name: Seq<char>) -> Option<WitTy>
    decreases entries.len(),
{
    if entries.len() == 0 {
        None
    } else if entries.last().0 == name {
        Some(entries.last().1)
    } else {
        branded_entry(entries.drop_last(), name)
    }
}

impl View for BrandedTypeMap {
    type V = Seq<(Seq<char>, WitTy)>;

    closed spec fn view(&self) -> Seq<(Seq<char>, WitTy)> {
        self.entries@.map_values(|e: (String, WitType)| (e.0@, e.1@))
    }
}

impl BrandedTypeMap {
    /// The type registered for `name`, if any.
    pub open spec fn spec_get(&self, name: Seq<char>) -> Option<WitTy> {
        branded_entry(self@, name)
    }

    /// An empty map.
    pub fn new() -> (m: Self)
        ensures
            forall|n: Seq<char>| m.spec_get(n) is None,
    {
        let m = BrandedTypeMap { entries: Vec::new() };
        assert(m@.len() == 0);
        m
    }

    /// Registers `t` for `name`, replacing an earlier registration.
    pub fn insert(&mut self, name: String, t: WitType)
        ensures
            final(self).spec_get(name@) == Some(t@),
            forall|n: Seq<char>| n != name@ ==> final(self).spec_get(n) == old(self).spec_get(n),
    {
        let ghost old_view = self@;
        self.entries.push((name, t));
        proof {
            assert(self@.drop_last() == old_view);
        }
    }

    /// The type registered for `name`, if any.
    pub fn get(&self, name: &str) -> (r: Option<WitType>)
        ensures
            match r {
                Some(t) => self.spec_get(name@) == Some(t@),
                None => self.spec_get(name@) is None,
            },
    {
        let mut i: usize = self.entries.len();
        assert(self@.take(i as int) == self@);
        while i > 0
            invariant
                i <= self.entries.len(),
                branded_entry(self@, name@) == branded_entry(self@.take(i as int), name@),
            decreases i,
        {
            proof {
                assert(self@.take(i as int).drop_last() == self@.take(i - 1));
                assert(self@.take(i as int).last() == self@[i - 1]);
            }
            if str_eq(self.entries[i - 1].0.as_str(), name) {
                return Some(copy_wit_type(&self.entries[i - 1].1));
            }
            i = i - 1;
        }
        None
    }
}

} // verus!

verus! {

// ---------------------------------------------------------------------------
// Detection
// ---------------------------------------------------------------------------

/// Whether `t` is the string literal type `'expected'`.
pub open spec fn is_string_literal_spec(t: TsType, expected: Seq<char>) -> bool {
    t matches TsType::Literal { string_value: Some(s), debug: _ } && s@ == expected
}

/// Check if a type is a string literal type with the given value.
pub fn is_string_literal_type(ty: &TsType, expected: &str) -> (b: bool)
    ensures
        b == is_string_literal_spec(*ty, expected@),
{
    match ty {
        TsType::Literal { string_value: Some(s), debug: _ } => str_eq(s.as_str(), expected),
        _ => false,
    }
}

/// The base of a branded type: `number`, `string` or `bigint`.
pub open spec fn is_base_member(t: TsType) -> bool {
    t matches TsType::Keyword(k) && (k == KeywordType::Number || k == KeywordType::String || k == KeywordType::BigInt)
}

/// The brand property `__brand: 'expected'`.
pub open spec fn is_brand_sig(m: TsSignature, expected: Seq<char>) -> bool {
    m matches TsSignature::Property { key: Some(k), type_annotation: Some(t), optional: _ }
        && k@ == "__brand"@ && is_string_literal_spec(t, expected)
}

/// The brand object: a type literal with the brand property.
pub open spec fn is_brand_member(t: TsType, expected: Seq<char>) -> bool {
    t matches TsType::TypeLiteral(ms) && exists|j: int| 0 <= j < ms@.len() && #[trigger] is_brand_sig(ms@[j], expected)
}

/// The branded type pattern for `expected`: an intersection with a base
/// type and the brand object (`number & { __brand: 'u32' }`), or a bare
/// reference to the name itself.
pub open spec fn branded_pattern(t: TsType, expected: Seq<char>) -> bool {
    match t {
        TsType::Intersection(ms) => {
            &&& exists|i: int| 0 <= i < ms@.len() && #[trigger] is_base_member(ms@[i])
            &&& exists|i: int| 0 <= i < ms@.len() && #[trigger] is_brand_member(ms@[i], expected)
        },
        TsType::Reference { name: TsTypeName::Identifier(id), type_args: _ } => id@ == expected,
        _ => false,
    }
}

fn has_brand_sig(ms: &Vec<TsSignature>, expected: &str) -> (b: bool)
    ensures
        b == exists|j: int| 0 <= j < ms@.len() && #[trigger] is_brand_sig(ms@[j], expected@),
{
    let mut found = false;
    let mut j: usize = 0;
    while j < ms.len()
        invariant
            j <= ms.len(),
            found == exists|k: int| 0 <= k < j && #[trigger] is_brand_sig(ms@[k], expected@),
        decreases ms.len() - j,
    {
        let hit = match &ms[j] {
            TsSignature::Property { key: Some(k), type_annotation: Some(t), optional: _ } => {
                proof { reveal_strlit("__brand"); }
                str_eq(k.as_str(), "__brand") && is_string_literal_type(t, expected)
            },
            _ => false,
        };
        assert(hit == is_brand_sig(ms@[j as int], expected@));
        if hit {
            found = true;
        }
        j = j + 1;
    }
    found
}

/// Check if a type annotation matches the branded type pattern.
pub fn is_branded_type_pattern(ty: &TsType, expected_name: &str) -> (b: bool)
    ensures
        b == branded_pattern(*ty, expected_name@),
{
    match ty {
        TsType::Intersection(ms) => {
            let mut has_base = false;
            let mut has_brand = false;
            let mut i: usize = 0;
            while i < ms.len()
                invariant
                    i <= ms.len(),
                    has_base == exists|k: int| 0 <= k < i && #[trigger] is_base_member(ms@[k]),
                    has_brand == exists|k: int| 0 <= k < i && #[trigger] is_brand_member(ms@[k], expected_name@),
                decreases ms.len() - i,
            {
                let base_i = match &ms[i] {
                    TsType::Keyword(k) => {
                        match k {
                            KeywordType::Number | KeywordType::String | KeywordType::BigInt => true,
                            _ => false,
                        }
                    },
                    _ => false,
                };
                let brand_i = match &ms[i] {
                    TsType::TypeLiteral(sigs) => has_brand_sig(sigs, expected_name),
                    _ => false,
                };
                assert(base_i == is_base_member(ms@[i as int]));
                assert(brand_i == is_brand_member(ms@[i as int], expected_name@));
                proof {
                    if base_i {
                        assert(0 <= i < i + 1 && is_base_member(ms@[i as int]));
                    }
                    if brand_i {
                        assert(0 <= i < i + 1 && is_brand_member(ms@[i as int], expected_name@));
                    }
                    if exists|k: int| 0 <= k < i + 1 && #[trigger] is_base_member(ms@[k]) {
                        let k = choose|k: int| 0 <= k < i + 1 && #[trigger] is_base_member(ms@[k]);
                        if k < i {
                            assert(exists|k2: int| 0 <= k2 < i && #[trigger] is_base_member(ms@[k2]));
                        }
                    }
                    if exists|k: int| 0 <= k < i + 1 && #[trigger] is_brand_member(ms@[k], expected_name@) {
                        let k = choose|k: int| 0 <= k < i + 1 && #[trigger] is_brand_member(ms@[k], expected_name@);
                        if k < i {
                            assert(exists|k2: int| 0 <= k2 < i && #[trigger] is_brand_member(ms@[k2], expected_name@));
                        }
                    }
                }
                has_base = has_base || base_i;
                has_brand = has_brand || brand_i;
                i = i + 1;
            }
            has_base && has_brand
        },
        TsType::Reference { name: TsTypeName::Identifier(id), type_args: _ } => str_eq(id.as_str(), expected_name),
        _ => false,
    }
}

/// Whether an event registers `n` as a branded type: a named import of a
/// well-known name from `witgenstein-ts`, or a type alias of a well-known
/// name that has the branded pattern.
pub open spec fn registers(e: BrandEvent, n: Seq<char>) -> bool {
    &&& branded_name_type(n) is Some
    &&& match e {
        BrandEvent::Import { source, specifiers } => source@ == "witgenstein-ts"@
            && exists|j: int| 0 <= j < specifiers@.len() && #[trigger] names_local(specifiers@[j], n),
        BrandEvent::TypeAlias(a) => a.name@ == n && branded_pattern(a.type_annotation, n),
    }
}

/// Whether an import specifier binds the local name `n`.
pub open spec fn names_local(o: Option<String>, n: Seq<char>) -> bool {
    o matches Some(l) && l@ == n
}

/// Whether some event among `evs` registers `n`.
pub open spec fn registered(evs: Seq<BrandEvent>, n: Seq<char>) -> bool {
    exists|i: int| 0 <= i < evs.len() && #[trigger] registers(evs[i], n)
}

/// Scan a module's imports and type aliases for branded types: each name
/// some event registers maps to its well-known WIT type.
pub fn collect_branded_types(events: &Vec<BrandEvent>) -> (m: BrandedTypeMap)
    ensures
        forall|n: Seq<char>| #[trigger] m.spec_get(n) == (if registered(events@, n) { branded_name_type(n) } else { None }),
{
    let mut m = BrandedTypeMap::new();
    let mut k: usize = 0;
    while k < events.len()
        invariant
            k <= events.len(),
            forall|n: Seq<char>| #[trigger] m.spec_get(n) == (if registered(events@.take(k as int), n) { branded_name_type(n) } else { None }),
        decreases events.len() - k,
    {
        let ghost pre = events@.take(k as int);
        let ghost post = events@.take(k + 1);
        proof {
            assert forall|n: Seq<char>| #[trigger] registered(post, n) == (registered(pre, n) || registers(events@[k as int], n)) by {
                if registered(post, n) {
                    let i = choose|i: int| 0 <= i < post.len() && #[trigger] registers(post[i], n);
                    if i < k {
                        assert(pre[i] == post[i]);
                    }
                }
                if registered(pre, n) {
                    let i = choose|i: int| 0 <= i < pre.len() && #[trigger] registers(pre[i], n);
                    assert(post[i] == pre[i]);
                }
                if registers(events@[k as int], n) {
                    assert(post[k as int] == events@[k as int]);
                }
            }
        }
        match &events[k] {
            BrandEvent::Import { source, specifiers } => {
                proof { reveal_strlit("witgenstein-ts"); }
                if str_eq(source.as_str(), "witgenstein-ts") {
                    let mut j: usize = 0;
                    while j < specifiers.len()
                        invariant
                            j <= specifiers.len(),
                            source@ == "witgenstein-ts"@,
                            forall|n: Seq<char>| #[trigger] m.spec_get(n) == (if registered(pre, n)
                                || (branded_name_type(n) is Some && exists|q: int| 0 <= q < j && #[trigger] names_local(specifiers@[q], n))
                                { branded_name_type(n) } else { None }),
                        decreases specifiers.len() - j,
                    {
                        match &specifiers[j] {
                            Some(local) => {
                                match lookup_branded_name(local.as_str()) {
                                    Some(t) => {
                                        m.insert(local.clone(), t);
                                    },
                                    None => {},
                                }
                            },
                            None => {},
                        }
                        proof {
                            assert forall|n: Seq<char>| #[trigger] m.spec_get(n) == (if registered(pre, n)
                                || (branded_name_type(n) is Some && exists|q: int| 0 <= q < j + 1 && #[trigger] names_local(specifiers@[q], n))
                                { branded_name_type(n) } else { None }) by {
                                if names_local(specifiers@[j as int], n) {
                                    assert(exists|q: int| 0 <= q < j + 1 && #[trigger] names_local(specifiers@[q], n));
                                }
                                if exists|q: int| 0 <= q < j + 1 && #[trigger] names_local(specifiers@[q], n) {
                                    let q = choose|q: int| 0 <= q < j + 1 && #[trigger] names_local(specifiers@[q], n);
                                    if q < j {
                                        assert(exists|q2: int| 0 <= q2 < j && #[trigger] names_local(specifiers@[q2], n));
                                    }
                                }
                            }
                        }
                        j = j + 1;
                    }
                }
            },
            BrandEvent::TypeAlias(alias) => {
                match lookup_branded_name(alias.name.as_str()) {
                    Some(t) => {
                        if is_branded_type_pattern(&alias.type_annotation, alias.name.as_str()) {
                            m.insert(alias.name.clone(), t);
                        }
                    },
                    None => {},
                }
            },
        }
        k = k + 1;
    }
    assert(events@.take(events.len() as int) =~= events@);
    m
}

} // verus!
