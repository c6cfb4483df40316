//! The decisions of the TypeScript-to-WIT command: the package identity,
//! the interface names, and the assembled package.
use vstd::prelude::*;
use crate::text::{
    alphanumeric_property, ascii_lowercase_char, is_alphanumeric, str_chars, str_eq,
    string_from_chars, to_ascii_lower,
};
use crate::ts_graph::{imports_of, ExternalImport, ImportModel};
use crate::ts_project::{derive_wit_package, opt_str, opt_triple, wit_package_of, PackageMeta};
use crate::ts_types::{interfaces_of, InterfaceModel, WitFunc, WitInterface, WitPackage, WitTypeDef, WitWorld};

verus! {

/// A character of an interface name as cleaned: alphanumerics and `-`
/// stay, anything else becomes `-`.
pub open spec fn clean_char(c: char) -> char {
    if alphanumeric_property(c) || c == '-' { c } else { '-' }
}

/// One step of building an interface name: the text so far, and whether it
/// is at a hyphen (or at the start).
pub open spec fn iface_step(st: (Seq<char>, bool), c: char) -> (Seq<char>, bool) {
    let d = clean_char(c);
    if d == '-' {
        if st.1 { (st.0, true) } else { (st.0.push('-'), true) }
    } else {
        (st.0.push(to_ascii_lower(d)), false)
    }
}

/// The interface name built from the first `n` characters of `s`.
pub open spec fn iface_prefix(s: Seq<char>, n: nat) -> (Seq<char>, bool)
    decreases n,
{
    if n == 0 || n > s.len() {
        (Seq::empty(), true)
    } else {
        iface_step(iface_prefix(s, (n - 1) as nat), s[n - 1])
    }
}

/// The WIT interface name of an npm-style name: runs of characters other
/// than alphanumerics collapse to one `-`, none leads or trails, ASCII
/// letters are lower-cased, and an empty result is `unnamed`.
pub open spec fn wit_interface_name(s: Seq<char>) -> Seq<char> {
    let r = iface_prefix(s, s.len()).0;
    let t = if r.len() > 0 && r.last() == '-' { r.drop_last() } else { r };
    if t.len() == 0 { "unnamed"@ } else { t }
}

/// Convert a package or module name to a WIT interface name.
pub fn to_wit_interface_name(name: &str) -> (r: String)
    ensures
        r@ == wit_interface_name(name@),
{
    let cs = str_chars(name);
    let mut out: Vec<char> = Vec::new();
    let mut prev_was_hyphen = true;
    let mut i: usize = 0;
    while i < cs.len()
        invariant
            i <= cs.len(),
            cs@ == name@,
            (out@, prev_was_hyphen) == iface_prefix(name@, i as nat),
        decreases cs.len() - i,
    {
        let c = cs[i];
        let d = if is_alphanumeric(c) || c == '-' { c } else { '-' };
        if d == '-' {
            if !prev_was_hyphen {
                out.push('-');
            }
            prev_was_hyphen = true;
        } else {
            let l = ascii_lowercase_char(d);
            out.push(l);
            prev_was_hyphen = false;
        }
        i = i + 1;
    }
    if out.len() > 0 && out[out.len() - 1] == '-' {
        out.pop();
    }
    if out.len() == 0 {
        "unnamed".to_string()
    } else {
        string_from_chars(out.as_slice())
    }
}

/// A WIT identifier shape: not empty, no leading or trailing `-`, no `--`.
pub open spec fn is_hyphenated_name(s: Seq<char>) -> bool {
    &&& s.len() > 0
    &&& s[0] != '-'
    &&& s.last() != '-'
    &&& forall|i: int| 0 <= i < s.len() - 1 ==> !(#[trigger] s[i] == '-' && s[i + 1] == '-')
}

/// While an interface name is built, it has no leading `-` and no `--`, and
/// the flag tells whether it is empty or ends in `-`.
proof fn lemma_iface_prefix(s: Seq<char>, n: nat)
    requires
        n <= s.len(),
    ensures
        ({
            let (r, h) = iface_prefix(s, n);
            &&& r.len() > 0 ==> r[0] != '-'
            &&& forall|i: int| 0 <= i < r.len() - 1 ==> !(#[trigger] r[i] == '-' && r[i + 1] == '-')
            &&& h == (r.len() == 0 || r.last() == '-')
        }),
    decreases n,
{
    if n > 0 {
        lemma_iface_prefix(s, (n - 1) as nat);
        let (p, h) = iface_prefix(s, (n - 1) as nat);
        let (r, h2) = iface_prefix(s, n);
        assert forall|i: int| 0 <= i < r.len() - 1 implies !(#[trigger] r[i] == '-' && r[i + 1] == '-') by {
            if i < p.len() - 1 {
                assert(r[i] == p[i] && r[i + 1] == p[i + 1]);
            } else if i == p.len() - 1 {
                assert(r[i] == p[i]);
            }
        }
        if r.len() > 0 && p.len() > 0 {
            assert(r[0] == p[0]);
        }
    }
}

/// An interface name is never empty, never starts or ends with `-`, and has
/// no doubled `-`.
pub proof fn lemma_wit_interface_name_shape(s: Seq<char>)
    ensures
        is_hyphenated_name(wit_interface_name(s)),
{
    lemma_iface_prefix(s, s.len());
    let r = iface_prefix(s, s.len()).0;
    let t = if r.len() > 0 && r.last() == '-' { r.drop_last() } else { r };
    if t.len() == 0 {
        let u = "unnamed"@;
        reveal_strlit("unnamed");
        assert forall|i: int| 0 <= i < u.len() - 1 implies !(#[trigger] u[i] == '-' && u[i + 1] == '-') by {}
    } else {
        assert forall|i: int| 0 <= i < t.len() - 1 implies !(#[trigger] t[i] == '-' && t[i + 1] == '-') by {
            assert(t[i] == r[i] && t[i + 1] == r[i + 1]);
        }
        assert(t[0] == r[0]);
        if r.last() == '-' {
            assert(t.last() == r[r.len() - 2]);
            assert(!(r[r.len() - 2] == '-' && r[r.len() - 1] == '-'));
        }
    }
}

/// The distinct specifiers of a sequence of imports, in order of first occurrence.
pub open spec fn distinct_specifiers(imports: Seq<ImportModel>) -> Seq<Seq<char>>
    decreases imports.len(),
{
    if imports.len() == 0 {
        Seq::empty()
    } else {
        let pre = distinct_specifiers(imports.drop_last());
        let s = imports.last().0;
        if pre.contains(s) { pre } else { pre.push(s) }
    }
}

/// The model of an empty interface with the given name.
pub open spec fn empty_interface(name: Seq<char>) -> InterfaceModel {
    InterfaceModel { name, type_defs: Seq::empty(), functions: Seq::empty() }
}

/// Build WIT import interfaces from external import information: one empty
/// interface per distinct specifier, named after it, in order of first
/// occurrence.
pub fn build_import_interfaces(external_imports: &[ExternalImport]) -> (v: Vec<WitInterface>)
    ensures
        interfaces_of(v@) == distinct_specifiers(imports_of(external_imports@)).map_values(
            |s: Seq<char>| empty_interface(wit_interface_name(s)),
        ),
{
    let ghost all = imports_of(external_imports@);
    let mut seen: Vec<String> = Vec::new();
    let mut v: Vec<WitInterface> = Vec::new();
    let mut i: usize = 0;
    while i < external_imports.len()
        invariant
            i <= external_imports.len(),
            all == imports_of(external_imports@),
            crate::ts_types::strs_of(seen@) == distinct_specifiers(all.take(i as int)),
            interfaces_of(v@) == distinct_specifiers(all.take(i as int)).map_values(
                |s: Seq<char>| empty_interface(wit_interface_name(s)),
            ),
        decreases external_imports.len() - i,
    {
        let ghost pre = distinct_specifiers(all.take(i as int));
        assert(all.take(i + 1).drop_last() == all.take(i as int));
        assert(all.take(i + 1).last() == all[i as int]);
        let spec_str = external_imports[i].specifier.as_str();
        if !crate::ts_project::contains_str(seen.as_slice(), spec_str) {
            let name = to_wit_interface_name(spec_str);
            let ghost before_v = interfaces_of(v@);
            let ghost before_seen = crate::ts_types::strs_of(seen@);
            let iface = WitInterface { name, type_defs: Vec::new(), functions: Vec::new() };
            proof {
                assert(crate::ts_types::type_defs_of(iface.type_defs@) =~= Seq::empty());
                assert(crate::ts_types::funcs_of(iface.functions@) =~= Seq::empty());
                assert(iface@ == empty_interface(wit_interface_name(spec_str@)));
            }
            v.push(iface);
            seen.push(spec_str.to_string());
            proof {
                assert(crate::ts_types::strs_of(seen@) =~= before_seen.push(spec_str@));
                let f = |s: Seq<char>| empty_interface(wit_interface_name(s));
                assert(interfaces_of(v@) =~= before_v.push(iface@));
                assert(interfaces_of(v@) =~= pre.push(spec_str@).map_values(f));
            }
        }
        i = i + 1;
    }
    assert(all.take(external_imports.len() as int) == all);
    v
}

/// Where the WIT package identity comes from.
pub open spec fn package_identity_spec(
    package_arg: Option<Seq<char>>,
    meta_identity: Option<Option<(Seq<char>, Seq<char>, Option<Seq<char>>)>>,
) -> Result<(Seq<char>, Seq<char>, Option<Seq<char>>), Seq<char>> {
    match package_arg {
        Some(s) => match crate::wit_common::has_package_colon(s) {
            true => {
                let (rest, version) = crate::wit_common::split_version(s);
                let colon = crate::text::first_index_of(rest, ':');
                Ok((rest.take(colon), rest.skip(colon + 1), version))
            },
            false => Err(crate::wit_common::package_id_error(s)),
        },
        None => match meta_identity {
            Some(Some(id)) => Ok(id),
            Some(None) => Err("could not derive WIT package name from package.json \u{2014} use --package"@),
            None => Err("no package.json found and --package not specified"@),
        },
    }
}

/// The identity derived from optional package metadata.
pub open spec fn meta_identity_of(meta: Option<PackageMeta>) -> Option<Option<(Seq<char>, Seq<char>, Option<Seq<char>>)>> {
    match meta {
        Some(m) => Some(wit_package_of(opt_str(m.name), opt_str(m.version))),
        None => None,
    }
}

/// Determine the WIT package identity: from the `--package` argument when
/// given, else from the package metadata.
pub fn package_identity(package_arg: Option<&str>, meta: &Option<PackageMeta>) -> (r: Result<(String, String, Option<String>), String>)
    ensures
        match r {
            Ok((ns, name, ver)) => package_identity_spec(
                match package_arg { Some(s) => Some(s@), None => None },
                meta_identity_of(*meta),
            ) == Ok::<_, Seq<char>>((ns@, name@, opt_str(ver))),
            Err(e) => package_identity_spec(
                match package_arg { Some(s) => Some(s@), None => None },
                meta_identity_of(*meta),
            ) == Err::<(Seq<char>, Seq<char>, Option<Seq<char>>), _>(e@),
        },
{
    match package_arg {
        Some(s) => {
            let r = crate::wit_common::parse_wit_package_id(s);
            match r {
                Ok((ns, name, ver)) => Ok((ns, name, ver)),
                Err(e) => Err(e),
            }
        },
        None => match meta {
            Some(m) => {
                let d = derive_wit_package(m);
                match d {
                    Some(id) => Ok(id),
                    None => Err("could not derive WIT package name from package.json \u{2014} use --package".to_string()),
                }
            },
            None => Err("no package.json found and --package not specified".to_string()),
        },
    }
}

/// Assemble the WIT package of a TypeScript project: the world is named
/// after the package, exports an interface `<world>-types` with the mapped
/// definitions and functions, and imports the given interfaces.
pub fn assemble_package(
    namespace: String,
    pkg_name: String,
    version: Option<String>,
    type_defs: Vec<WitTypeDef>,
    functions: Vec<WitFunc>,
    imports: Vec<WitInterface>,
) -> (p: WitPackage)
    ensures
        p.namespace@ == namespace@,
        p.name@ == pkg_name@,
        opt_str(p.version) == opt_str(version),
        p.world.name@ == wit_interface_name(pkg_name@),
        p.world.exports.name@ == wit_interface_name(pkg_name@) + "-types"@,
        p.world.exports.type_defs@ == type_defs@,
        p.world.exports.functions@ == functions@,
        p.world.imports@ == imports@,
{
    let wit_name = to_wit_interface_name(pkg_name.as_str());
    let mut exports_name = wit_name.clone();
    exports_name.push_str("-types");
    WitPackage {
        namespace,
        name: pkg_name,
        version,
        world: WitWorld {
            name: wit_name,
            exports: WitInterface { name: exports_name, type_defs, functions },
            imports,
        },
    }
}

/// The failure a strict run ends with: when it is strict and the mapping
/// reported issues, `<n> type mapping issue(s) found — fix them and try again`.
pub open spec fn strict_failure_spec(strict: bool, n: nat) -> Option<Seq<char>> {
    if strict && n > 0 {
        Some(crate::rs_resolve::decimal(n) + " type mapping issue(s) found — fix them and try again"@)
    } else {
        None
    }
}

/// The failure a strict run ends with, if any.
pub fn strict_failure(strict: bool, n_diagnostics: usize) -> (r: Option<String>)
    ensures
        opt_str(r) == strict_failure_spec(strict, n_diagnostics as nat),
{
    if strict && n_diagnostics > 0 {
        let mut m = String::new();
        crate::rs_resolve::push_decimal(&mut m, n_diagnostics);
        m.push_str(" type mapping issue(s) found — fix them and try again");
        Some(m)
    } else {
        None
    }
}

} // verus!
