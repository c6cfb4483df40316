//! TypeScript project resolution: entry candidates, project roots, output
//! paths, and WIT package names derived from `package.json`.
use vstd::prelude::*;
use crate::text::{
    find_first, first_index_of, lemma_first_index_of, slice_chars, slice_string, str_chars,
    str_eq, string_from_chars,
};

verus! {

/// What `Path::join` gives for `base` and `p`, as text.
pub uninterp spec fn joined_path(base: Seq<char>, p: Seq<char>) -> Seq<char>;

/// What `Path::extension` gives for `p`, as text, when it is UTF-8.
pub uninterp spec fn path_extension_of(p: Seq<char>) -> Option<Seq<char>>;

/// What `Path::parent` gives for `p`, as text.
pub uninterp spec fn path_parent_of(p: Seq<char>) -> Option<Seq<char>>;

/// The view of an optional string.
pub open spec fn opt_str(o: Option<String>) -> Option<Seq<char>> {
    match o {
        Some(s) => Some(s@),
        None => None,
    }
}

/// `Path::join`.
///
/// Trusted: the result is `Path::new(base).join(p)` as text, named by
/// `joined_path`; std gives `p` itself when it is absolute.
#[verifier::external_body]
pub fn path_join(base: &str, p: &str) -> (r: String)
    ensures
        r@ == joined_path(base@, p@),
{
    std::path::Path::new(base).join(p).to_string_lossy().into_owned()
}

/// `Path::extension`.
///
/// Trusted: the result is the extension of the last component, named by
/// `path_extension_of`; nothing is claimed of its shape.
#[verifier::external_body]
pub fn path_extension(p: &str) -> (r: Option<String>)
    ensures
        opt_str(r) == path_extension_of(p@),
{
    std::path::Path::new(p).extension().and_then(|e| e.to_str()).map(|e| e.to_string())
}

/// `Path::parent`.
///
/// Trusted: the result is the path without its last component, named by
/// `path_parent_of`; `None` for a root or an empty path. Dropping a
/// component leaves a shorter text.
#[verifier::external_body]
pub fn path_parent(p: &str) -> (r: Option<String>)
    ensures
        opt_str(r) == path_parent_of(p@),
        r matches Some(q) ==> q@.len() < p@.len(),
{
    std::path::Path::new(p).parent().map(|d| d.to_string_lossy().into_owned())
}

/// The TypeScript source extensions.
pub open spec fn is_ts_ext(e: Seq<char>) -> bool {
    e == "ts"@ || e == "tsx"@ || e == "mts"@ || e == "cts"@
}

/// Whether a path has a TypeScript source extension.
pub open spec fn has_ts_extension_spec(p: Seq<char>) -> bool {
    match path_extension_of(p) {
        Some(e) => is_ts_ext(e),
        None => false,
    }
}

/// Whether a path has a TypeScript source extension (`ts`, `tsx`, `mts`, `cts`).
pub fn has_ts_extension(path: &str) -> (b: bool)
    ensures
        b == has_ts_extension_spec(path@),
{
    match path_extension(path) {
        Some(e) => str_eq(e.as_str(), "ts") || str_eq(e.as_str(), "tsx") || str_eq(e.as_str(), "mts")
            || str_eq(e.as_str(), "cts"),
        None => false,
    }
}

/// Whether `s` ends with `suffix`.
pub open spec fn ends_with(s: Seq<char>, suffix: Seq<char>) -> bool {
    suffix.len() <= s.len() && s.skip(s.len() - suffix.len()) == suffix
}

/// `s` without `suffix`, when it ends with it.
pub open spec fn strip_suffix_spec(s: Seq<char>, suffix: Seq<char>) -> Option<Seq<char>> {
    if ends_with(s, suffix) { Some(s.take(s.len() - suffix.len())) } else { None }
}

/// `str::strip_suffix`, on characters.
pub fn strip_suffix(s: &str, suffix: &str) -> (r: Option<String>)
    ensures
        opt_str(r) == strip_suffix_spec(s@, suffix@),
{
    let cs = str_chars(s);
    let xs = str_chars(suffix);
    if xs.len() > cs.len() {
        return None;
    }
    let start = cs.len() - xs.len();
    let tail = slice_chars(&cs, start, cs.len());
    if crate::text::chars_eq(&tail, &xs) {
        Some(slice_string(&cs, 0, start))
    } else {
        None
    }
}

/// The TypeScript counterpart of a JavaScript path: `.js`, `.mjs`, `.cjs`
/// become `.ts`, `.mts`, `.cts`.
pub open spec fn swap_js_to_ts_spec(p: Seq<char>) -> Option<Seq<char>> {
    match strip_suffix_spec(p, ".js"@) {
        Some(stem) => Some(stem + ".ts"@),
        None => match strip_suffix_spec(p, ".mjs"@) {
            Some(stem) => Some(stem + ".mts"@),
            None => match strip_suffix_spec(p, ".cjs"@) {
                Some(stem) => Some(stem + ".cts"@),
                None => None,
            },
        },
    }
}

/// Replace a JavaScript extension with its TypeScript counterpart.
pub fn swap_js_to_ts(path: &str) -> (r: Option<String>)
    ensures
        opt_str(r) == swap_js_to_ts_spec(path@),
{
    match strip_suffix(path, ".js") {
        Some(mut stem) => {
            stem.push_str(".ts");
            return Some(stem);
        },
        None => {},
    }
    match strip_suffix(path, ".mjs") {
        Some(mut stem) => {
            stem.push_str(".mts");
            return Some(stem);
        },
        None => {},
    }
    match strip_suffix(path, ".cjs") {
        Some(mut stem) => {
            stem.push_str(".cts");
            Some(stem)
        },
        None => None,
    }
}

/// The files that may hold the TypeScript source for `path_str`, in the
/// order they are tried: the path itself when it has a TypeScript extension,
/// its JavaScript-to-TypeScript counterpart, and the source of a `.d.ts` or
/// `.d.mts` declaration.
pub open spec fn ts_source_candidates_spec(path_str: Seq<char>, root: Seq<char>) -> Seq<Seq<char>> {
    let path = joined_path(root, path_str);
    (if has_ts_extension_spec(path) { seq![path] } else { Seq::empty() }) + match swap_js_to_ts_spec(path) {
        Some(ts) => seq![ts],
        None => Seq::empty(),
    } + match strip_suffix_spec(path_str, ".d.ts"@) {
        Some(stem) => seq![joined_path(root, stem + ".ts"@)],
        None => match strip_suffix_spec(path_str, ".d.mts"@) {
            Some(stem) => seq![joined_path(root, stem + ".ts"@)],
            None => Seq::empty(),
        },
    }
}

/// The candidate TypeScript sources for a path named in project metadata.
pub fn ts_source_candidates(path_str: &str, project_root: &str) -> (v: Vec<String>)
    ensures
        crate::ts_types::strs_of(v@) == ts_source_candidates_spec(path_str@, project_root@),
{
    let mut v: Vec<String> = Vec::new();
    let path = path_join(project_root, path_str);
    if has_ts_extension(path.as_str()) {
        v.push(path.clone());
    }
    let ghost a = crate::ts_types::strs_of(v@);
    match swap_js_to_ts(path.as_str()) {
        Some(ts) => v.push(ts),
        None => {},
    }
    let ghost b = crate::ts_types::strs_of(v@);
    let stem = match strip_suffix(path_str, ".d.ts") {
        Some(s) => Some(s),
        None => strip_suffix(path_str, ".d.mts"),
    };
    match stem {
        Some(mut s) => {
            s.push_str(".ts");
            let joined = path_join(project_root, s.as_str());
            v.push(joined);
        },
        None => {},
    }
    assert(crate::ts_types::strs_of(v@) =~= ts_source_candidates_spec(path_str@, project_root@));
    v
}

/// The first of `candidates` that is among `existing`, if any.
pub open spec fn first_existing(candidates: Seq<Seq<char>>, existing: Seq<Seq<char>>) -> Option<Seq<char>>
    decreases candidates.len(),
{
    if candidates.len() == 0 {
        None
    } else if existing.contains(candidates[0]) {
        Some(candidates[0])
    } else {
        first_existing(candidates.drop_first(), existing)
    }
}

/// Whether `s` is among `xs`.
pub fn contains_str(xs: &[String], s: &str) -> (b: bool)
    ensures
        b == crate::ts_types::strs_of(xs@).contains(s@),
{
    let mut i: usize = 0;
    while i < xs.len()
        invariant
            i <= xs.len(),
            forall|j: int| 0 <= j < i ==> crate::ts_types::strs_of(xs@)[j] != s@,
        decreases xs.len() - i,
    {
        if str_eq(xs[i].as_str(), s) {
            assert(crate::ts_types::strs_of(xs@)[i as int] == s@);
            return true;
        }
        i = i + 1;
    }
    false
}

/// The first candidate that exists.
pub fn pick_existing(candidates: &Vec<String>, existing: &[String]) -> (r: Option<String>)
    ensures
        opt_str(r) == first_existing(crate::ts_types::strs_of(candidates@), crate::ts_types::strs_of(existing@)),
{
    let ghost cs = crate::ts_types::strs_of(candidates@);
    assert(cs.skip(0) == cs);
    let mut i: usize = 0;
    while i < candidates.len()
        invariant
            i <= candidates.len(),
            cs == crate::ts_types::strs_of(candidates@),
            first_existing(cs, crate::ts_types::strs_of(existing@)) == first_existing(cs.skip(i as int), crate::ts_types::strs_of(existing@)),
        decreases candidates.len() - i,
    {
        proof {
            assert(cs.skip(i as int)[0] == cs[i as int]);
            assert(cs.skip(i as int).drop_first() == cs.skip(i + 1));
        }
        if contains_str(existing, candidates[i].as_str()) {
            return Some(candidates[i].clone());
        }
        i = i + 1;
    }
    None
}

/// Attempt to resolve a path that might reference a `.js` file to its `.ts`
/// source: the first candidate among the files that exist.
pub fn try_resolve_ts_source(path_str: &str, project_root: &str, existing: &[String]) -> (r: Option<String>)
    ensures
        opt_str(r) == first_existing(ts_source_candidates_spec(path_str@, project_root@), crate::ts_types::strs_of(existing@)),
{
    let candidates = ts_source_candidates(path_str, project_root);
    pick_existing(&candidates, existing)
}


/// `s` split around the first occurrence of `c`.
pub open spec fn split_once_spec(s: Seq<char>, c: char) -> Option<(Seq<char>, Seq<char>)> {
    let i = first_index_of(s, c);
    if i < 0 {
        None
    } else {
        Some((s.take(i), s.skip(i + 1)))
    }
}

/// The view of an optional pair of strings.
pub open spec fn opt_pair(o: Option<(String, String)>) -> Option<(Seq<char>, Seq<char>)> {
    match o {
        Some((a, b)) => Some((a@, b@)),
        None => None,
    }
}

/// `str::split_once` with a character pattern.
pub fn split_once(s: &str, c: char) -> (r: Option<(String, String)>)
    ensures
        opt_pair(r) == split_once_spec(s@, c),
{
    let cs = str_chars(s);
    proof { lemma_first_index_of(s@, c); }
    match find_first(&cs, c) {
        Some(i) => Some((slice_string(&cs, 0, i), slice_string(&cs, i + 1, cs.len()))),
        None => None,
    }
}

/// Whether `s` starts with `@` (an npm scope).
pub open spec fn is_scoped(s: Seq<char>) -> bool {
    s.len() > 0 && s[0] == '@'
}

/// `s` without its first character, when it is `@`.
fn strip_at(s: &str) -> (r: Option<String>)
    ensures
        is_scoped(s@) ==> (r matches Some(t) && t@ == s@.drop_first()),
        !is_scoped(s@) ==> r is None,
{
    let cs = str_chars(s);
    if cs.len() > 0 && cs[0] == '@' {
        Some(slice_string(&cs, 1, cs.len()))
    } else {
        None
    }
}

/// The short package name of an npm package name: the part after the scope.
pub open spec fn wit_name_of(npm: Seq<char>) -> Seq<char> {
    if is_scoped(npm) {
        match split_once_spec(npm.drop_first(), '/') {
            Some((_, rest)) => rest,
            None => npm,
        }
    } else {
        npm
    }
}

/// Extract the short package name from an npm package name, stripping the
/// scope: `@myorg/my-pkg` gives `my-pkg`.
pub fn package_name_to_wit_name(npm_name: &str) -> (r: String)
    ensures
        r@ == wit_name_of(npm_name@),
{
    match strip_at(npm_name) {
        Some(scoped) => match split_once(scoped.as_str(), '/') {
            Some((_, rest)) => rest,
            None => npm_name.to_string(),
        },
        None => npm_name.to_string(),
    }
}

/// The `exports` field of `package.json`, as far as the entry search reads it.
pub enum ExportsField {
    /// A single path.
    Text(String),
    /// An object: each key with its value when that is a string.
    Object(Vec<(String, Option<String>)>),
    /// Absent, or of another shape.
    Other,
}

/// Relevant fields from `package.json`.
pub struct PackageMeta {
    pub name: Option<String>,
    pub version: Option<String>,
    pub main: Option<String>,
    pub types: Option<String>,
    pub typings: Option<String>,
    pub exports: ExportsField,
}

/// Metadata of a TypeScript project.
pub struct ProjectInfo {
    /// The resolved entry TypeScript source file.
    pub entry_file: String,
    /// The project root directory (containing package.json or tsconfig.json).
    pub project_root: String,
    /// Package metadata from package.json, if found.
    pub package_meta: Option<PackageMeta>,
}

/// The value of the `"."` entry of an `exports` object, when it is a string.
pub open spec fn dot_value(entries: Seq<(String, Option<String>)>) -> Option<Seq<char>>
    decreases entries.len(),
{
    if entries.len() == 0 {
        None
    } else if entries[0].0@ == "."@ {
        opt_str(entries[0].1)
    } else {
        dot_value(entries.drop_first())
    }
}

/// The TypeScript source for a path named in metadata, among the files that exist.
pub open spec fn resolve_ts_spec(p: Seq<char>, root: Seq<char>, existing: Seq<Seq<char>>) -> Option<Seq<char>> {
    first_existing(ts_source_candidates_spec(p, root), existing)
}

/// `a`, or `b` when `a` is `None`.
pub open spec fn or_else(a: Option<Seq<char>>, b: Option<Seq<char>>) -> Option<Seq<char>> {
    if a is Some { a } else { b }
}

/// The entry found through an optional metadata field.
pub open spec fn field_entry(f: Option<Seq<char>>, root: Seq<char>, existing: Seq<Seq<char>>) -> Option<Seq<char>> {
    match f {
        Some(p) => resolve_ts_spec(p, root, existing),
        None => None,
    }
}

/// The entry found through the `exports` field.
pub open spec fn exports_entry(e: ExportsField, root: Seq<char>, existing: Seq<Seq<char>>) -> Option<Seq<char>> {
    match e {
        ExportsField::Text(s) => resolve_ts_spec(s@, root, existing),
        ExportsField::Object(entries) => field_entry(dot_value(entries@), root, existing),
        ExportsField::Other => None,
    }
}

/// The entry derived from package metadata: `types`, then `typings`, then
/// `main`, then `exports`.
pub open spec fn entry_from_meta_spec(meta: PackageMeta, root: Seq<char>, existing: Seq<Seq<char>>) -> Option<Seq<char>> {
    or_else(
        field_entry(opt_str(meta.types), root, existing),
        or_else(
            field_entry(opt_str(meta.typings), root, existing),
            or_else(field_entry(opt_str(meta.main), root, existing), exports_entry(meta.exports, root, existing)),
        ),
    )
}

/// The string value of the `"."` entry of an `exports` object.
fn find_dot_value(entries: &Vec<(String, Option<String>)>) -> (r: Option<String>)
    ensures
        opt_str(r) == dot_value(entries@),
{
    let mut i: usize = 0;
    assert(entries@.skip(0) == entries@);
    while i < entries.len()
        invariant
            i <= entries.len(),
            dot_value(entries@) == dot_value(entries@.skip(i as int)),
        decreases entries.len() - i,
    {
        proof {
            assert(entries@.skip(i as int)[0] == entries@[i as int]);
            assert(entries@.skip(i as int).drop_first() == entries@.skip(i + 1));
        }
        if str_eq(entries[i].0.as_str(), ".") {
            return match &entries[i].1 {
                Some(v) => Some(v.clone()),
                None => None,
            };
        }
        i = i + 1;
    }
    None
}

/// The entry found through an optional metadata field.
fn resolve_field(f: &Option<String>, project_root: &str, existing: &[String]) -> (r: Option<String>)
    ensures
        opt_str(r) == field_entry(opt_str(*f), project_root@, crate::ts_types::strs_of(existing@)),
{
    match f {
        Some(p) => try_resolve_ts_source(p.as_str(), project_root, existing),
        None => None,
    }
}

/// Try to derive the entry file from package.json metadata, among the
/// files that exist.
pub fn entry_from_package_meta(meta: &PackageMeta, project_root: &str, existing: &[String]) -> (r: Option<String>)
    ensures
        opt_str(r) == entry_from_meta_spec(*meta, project_root@, crate::ts_types::strs_of(existing@)),
{
    let t = resolve_field(&meta.types, project_root, existing);
    if t.is_some() {
        return t;
    }
    let t = resolve_field(&meta.typings, project_root, existing);
    if t.is_some() {
        return t;
    }
    let t = resolve_field(&meta.main, project_root, existing);
    if t.is_some() {
        return t;
    }
    match &meta.exports {
        ExportsField::Text(s) => try_resolve_ts_source(s.as_str(), project_root, existing),
        ExportsField::Object(entries) => {
            let v = find_dot_value(entries);
            resolve_field(&v, project_root, existing)
        },
        ExportsField::Other => None,
    }
}


/// The WIT package `(namespace, name, version)` of an npm package name and
/// version: `@scope/name` gives `scope:name`, an unscoped name goes in the
/// `local` namespace, and a scoped name without `/` gives none.
pub open spec fn wit_package_of(name: Option<Seq<char>>, version: Option<Seq<char>>) -> Option<(Seq<char>, Seq<char>, Option<Seq<char>>)> {
    match name {
        None => None,
        Some(n) => if is_scoped(n) {
            match split_once_spec(n.drop_first(), '/') {
                Some((scope, rest)) => Some((scope, rest, version)),
                None => None,
            }
        } else {
            Some(("local"@, n, version))
        },
    }
}

/// The view of an optional package identifier.
pub open spec fn opt_triple(o: Option<(String, String, Option<String>)>) -> Option<(Seq<char>, Seq<char>, Option<Seq<char>>)> {
    match o {
        Some((a, b, c)) => Some((a@, b@, opt_str(c))),
        None => None,
    }
}

/// Derive the WIT package identifier from package.json metadata:
/// `@myorg/my-pkg` at `1.0.0` gives `myorg:my-pkg@1.0.0`.
pub fn derive_wit_package(meta: &PackageMeta) -> (r: Option<(String, String, Option<String>)>)
    ensures
        opt_triple(r) == wit_package_of(opt_str(meta.name), opt_str(meta.version)),
{
    let name = match &meta.name {
        Some(n) => n,
        None => return None,
    };
    let version = match &meta.version {
        Some(v) => Some(v.clone()),
        None => None,
    };
    match strip_at(name.as_str()) {
        Some(scoped) => match split_once(scoped.as_str(), '/') {
            Some((scope, rest)) => Some((scope, rest, version)),
            None => None,
        },
        None => Some(("local".to_string(), name.clone(), version)),
    }
}

/// The `.wit` file for a project: named after the package, or `output.wit`.
pub open spec fn output_path_of(root: Seq<char>, name: Option<Seq<char>>) -> Seq<char> {
    match name {
        Some(n) => joined_path(root, wit_name_of(n) + ".wit"@),
        None => joined_path(root, "output.wit"@),
    }
}

/// The name in the package metadata of a project, if any.
pub open spec fn project_package_name(p: ProjectInfo) -> Option<Seq<char>> {
    match p.package_meta {
        Some(m) => opt_str(m.name),
        None => None,
    }
}

/// Derive the output .wit file path from the package name:
/// `@myorg/my-pkg` gives `my-pkg.wit` in the project root.
pub fn derive_output_path(project: &ProjectInfo) -> (r: String)
    ensures
        r@ == output_path_of(project.project_root@, project_package_name(*project)),
{
    match &project.package_meta {
        Some(meta) => match &meta.name {
            Some(name) => {
                let mut file = package_name_to_wit_name(name.as_str());
                file.push_str(".wit");
                return path_join(project.project_root.as_str(), file.as_str());
            },
            None => {},
        },
        None => {},
    }
    path_join(project.project_root.as_str(), "output.wit")
}

/// The error message for a package identifier without `namespace:name`.
pub open spec fn package_id_error(s: Seq<char>) -> Seq<char> {
    "invalid WIT package id, expected 'namespace:name': "@ + s
}

/// The parts of a package identifier: the version follows the first `@`,
/// the namespace precedes the first `:` before it.
pub open spec fn package_id_parts(s: Seq<char>) -> Option<(Seq<char>, Seq<char>, Option<Seq<char>>)> {
    let (name_part, version) = match split_once_spec(s, '@') {
        Some((n, v)) => (n, Some(v)),
        None => (s, None),
    };
    match split_once_spec(name_part, ':') {
        Some((ns, name)) => Some((ns, name, version)),
        None => None,
    }
}

/// Parse a WIT package identifier string like `myorg:my-pkg@1.0.0`.
pub fn parse_wit_package_id(s: &str) -> (r: Result<(String, String, Option<String>), String>)
    ensures
        match r {
            Ok((ns, name, ver)) => package_id_parts(s@) == Some((ns@, name@, opt_str(ver))),
            Err(e) => package_id_parts(s@) is None && e@ == package_id_error(s@),
        },
{
    let (name_part, version) = match split_once(s, '@') {
        Some((n, v)) => (n, Some(v)),
        None => (s.to_string(), None),
    };
    match split_once(name_part.as_str(), ':') {
        Some((ns, name)) => Ok((ns, name, version)),
        None => {
            let mut msg = "invalid WIT package id, expected 'namespace:name': ".to_string();
            msg.push_str(s);
            Err(msg)
        },
    }
}


/// The nearest of `dir` and its ancestors that is among `marked`.
pub open spec fn marked_ancestor(dir: Seq<char>, marked: Seq<Seq<char>>) -> Option<Seq<char>>
    decreases dir.len(),
{
    if marked.contains(dir) {
        Some(dir)
    } else {
        match path_parent_of(dir) {
            Some(p) => if p.len() < dir.len() { marked_ancestor(p, marked) } else { None },
            None => None,
        }
    }
}

/// The project root above `start`: the nearest directory among `marked`
/// (those holding `package.json` or `tsconfig.json`), else `start`.
pub open spec fn project_root_spec(start: Seq<char>, marked: Seq<Seq<char>>) -> Seq<char> {
    match marked_ancestor(start, marked) {
        Some(d) => d,
        None => start,
    }
}

/// `start` and its ancestors, nearest first.
pub open spec fn ancestors_spec(dir: Seq<char>) -> Seq<Seq<char>>
    decreases dir.len(),
{
    match path_parent_of(dir) {
        Some(p) => if p.len() < dir.len() { seq![dir] + ancestors_spec(p) } else { seq![dir] },
        None => seq![dir],
    }
}

/// The directories in which a project root is looked for, nearest first.
pub fn ancestors(start: &str) -> (v: Vec<String>)
    ensures
        crate::ts_types::strs_of(v@) == ancestors_spec(start@),
{
    let mut v: Vec<String> = Vec::new();
    let mut dir = start.to_string();
    loop
        invariant
            crate::ts_types::strs_of(v@) + ancestors_spec(dir@) == ancestors_spec(start@),
        decreases dir@.len(),
    {
        let parent = path_parent(dir.as_str());
        proof {
            assert(crate::ts_types::strs_of(v@.push(dir)) == crate::ts_types::strs_of(v@).push(dir@));
        }
        match parent {
            Some(p) => {
                assert(ancestors_spec(dir@) == seq![dir@] + ancestors_spec(p@));
                assert(crate::ts_types::strs_of(v@).push(dir@) + ancestors_spec(p@) == crate::ts_types::strs_of(v@) + (seq![dir@] + ancestors_spec(p@)));
                v.push(dir);
                dir = p;
            },
            None => {
                assert(ancestors_spec(dir@) == seq![dir@]);
                v.push(dir);
                return v;
            },
        }
    }
}

/// Walk up from `start` to the project root: the nearest directory among
/// `marked`, else `start` itself.
pub fn find_project_root(start: &str, marked: &[String]) -> (r: String)
    ensures
        r@ == project_root_spec(start@, crate::ts_types::strs_of(marked@)),
{
    let ghost m = crate::ts_types::strs_of(marked@);
    let mut dir = start.to_string();
    loop
        invariant
            m == crate::ts_types::strs_of(marked@),
            marked_ancestor(start@, m) == marked_ancestor(dir@, m),
        decreases dir@.len(),
    {
        if contains_str(marked, dir.as_str()) {
            return dir;
        }
        match path_parent(dir.as_str()) {
            Some(p) => {
                dir = p;
            },
            None => {
                return start.to_string();
            },
        }
    }
}

/// Relevant fields from `tsconfig.json`.
pub struct TsConfigFiles {
    pub files: Vec<String>,
    pub patterns: Vec<String>,
}

/// The joined paths of `ps` under `root` that have a TypeScript extension, in order.
pub open spec fn ts_paths(root: Seq<char>, ps: Seq<Seq<char>>) -> Seq<Seq<char>>
    decreases ps.len(),
{
    if ps.len() == 0 {
        Seq::empty()
    } else {
        let pre = ts_paths(root, ps.drop_last());
        let p = joined_path(root, ps.last());
        if has_ts_extension_spec(p) { pre.push(p) } else { pre }
    }
}

/// Whether a file pattern names a file directly (no `*` or `?`).
pub open spec fn is_literal_pattern(p: Seq<char>) -> bool {
    !p.contains('*') && !p.contains('?')
}

/// The file patterns that name files directly, in order.
pub open spec fn literal_patterns(ps: Seq<Seq<char>>) -> Seq<Seq<char>>
    decreases ps.len(),
{
    if ps.len() == 0 {
        Seq::empty()
    } else {
        let pre = literal_patterns(ps.drop_last());
        if is_literal_pattern(ps.last()) { pre.push(ps.last()) } else { pre }
    }
}

/// The files `tsconfig.json` offers as entry, in the order they are tried.
pub open spec fn tsconfig_candidates(root: Seq<char>, files: Seq<Seq<char>>, patterns: Seq<Seq<char>>) -> Seq<Seq<char>> {
    ts_paths(root, files) + ts_paths(root, literal_patterns(patterns))
}

/// Whether `s` holds character `c`.
fn has_char(s: &str, c: char) -> (b: bool)
    ensures
        b == s@.contains(c),
{
    let cs = str_chars(s);
    proof { lemma_first_index_of(s@, c); }
    match find_first(&cs, c) {
        Some(i) => {
            assert(s@[i as int] == c);
            true
        },
        None => false,
    }
}

/// Append to `out` the joined paths of `ps` that have a TypeScript
/// extension, keeping only literal patterns when `literal_only`.
fn push_ts_paths(out: &mut Vec<String>, root: &str, ps: &Vec<String>, literal_only: bool)
    ensures
        crate::ts_types::strs_of(final(out)@) == crate::ts_types::strs_of(old(out)@) + ts_paths(
            root@,
            if literal_only { literal_patterns(crate::ts_types::strs_of(ps@)) } else { crate::ts_types::strs_of(ps@) },
        ),
{
    let ghost start = crate::ts_types::strs_of(out@);
    let ghost all = crate::ts_types::strs_of(ps@);
    let ghost kept: Seq<Seq<char>> = Seq::empty();
    let mut i: usize = 0;
    while i < ps.len()
        invariant
            i <= ps.len(),
            all == crate::ts_types::strs_of(ps@),
            kept == (if literal_only { literal_patterns(all.take(i as int)) } else { all.take(i as int) }),
            crate::ts_types::strs_of(out@) == start + ts_paths(root@, kept),
        decreases ps.len() - i,
    {
        let ghost prev = kept;
        assert(all.take(i + 1).drop_last() == all.take(i as int));
        assert(all.take(i + 1).last() == all[i as int]);
        let keep = !literal_only || (!has_char(ps[i].as_str(), '*') && !has_char(ps[i].as_str(), '?'));
        if keep {
            proof { kept = kept.push(all[i as int]); }
            assert(kept.drop_last() == prev);
            let path = path_join(root, ps[i].as_str());
            if has_ts_extension(path.as_str()) {
                proof {
                    assert(crate::ts_types::strs_of(out@.push(path)) == crate::ts_types::strs_of(out@).push(path@));
                }
                out.push(path);
            }
        }
        i = i + 1;
    }
    assert(all.take(ps.len() as int) == all);
}

/// Try to find the entry file from `tsconfig.json`: the first listed file,
/// then the first literal file pattern, that exists and has a
/// TypeScript extension.
pub fn entry_from_tsconfig(config: &TsConfigFiles, project_root: &str, existing: &[String]) -> (r: Option<String>)
    ensures
        opt_str(r) == first_existing(
            tsconfig_candidates(project_root@, crate::ts_types::strs_of(config.files@), crate::ts_types::strs_of(config.patterns@)),
            crate::ts_types::strs_of(existing@),
        ),
{
    let mut candidates: Vec<String> = Vec::new();
    push_ts_paths(&mut candidates, project_root, &config.files, false);
    push_ts_paths(&mut candidates, project_root, &config.patterns, true);
    assert(crate::ts_types::strs_of(candidates@) =~= tsconfig_candidates(
        project_root@,
        crate::ts_types::strs_of(config.files@),
        crate::ts_types::strs_of(config.patterns@),
    ));
    pick_existing(&candidates, existing)
}


/// What the input path names.
#[derive(PartialEq, Eq, Structural, Clone, Copy, Debug)]
pub enum InputKind {
    File,
    Dir,
    Missing,
}

/// Why no project could be resolved.
#[derive(PartialEq, Eq, Debug)]
pub enum ProjectError {
    /// The input path does not exist.
    Missing(String),
    /// The directory holds no TypeScript entry point.
    NoEntry(String),
}

impl ProjectError {
    /// The message reported for this error.
    pub fn message(&self) -> (m: String)
        ensures
            m@ == match self {
                ProjectError::Missing(p) => "input path does not exist: "@ + p@,
                ProjectError::NoEntry(p) => "could not find a TypeScript entry point in "@ + p@,
            },
    {
        match self {
            ProjectError::Missing(p) => {
                let mut m = "input path does not exist: ".to_string();
                m.push_str(p.as_str());
                m
            },
            ProjectError::NoEntry(p) => {
                let mut m = "could not find a TypeScript entry point in ".to_string();
                m.push_str(p.as_str());
                m
            },
        }
    }
}

/// The well-known entry points under a directory, in the order tried.
pub open spec fn fallback_entries(dir: Seq<char>) -> Seq<Seq<char>> {
    seq![
        joined_path(dir, "index.ts"@),
        joined_path(dir, "index.tsx"@),
        joined_path(dir, "src/index.ts"@),
        joined_path(dir, "src/index.tsx"@),
    ]
}

/// The candidates an optional metadata field names.
pub open spec fn field_candidates(f: Option<Seq<char>>, root: Seq<char>) -> Seq<Seq<char>> {
    match f {
        Some(p) => ts_source_candidates_spec(p, root),
        None => Seq::empty(),
    }
}

/// The candidate entries package metadata names: through `types`,
/// `typings`, `main`, then `exports`.
pub open spec fn meta_candidates(meta: PackageMeta, root: Seq<char>) -> Seq<Seq<char>> {
    field_candidates(opt_str(meta.types), root) + field_candidates(opt_str(meta.typings), root)
        + field_candidates(opt_str(meta.main), root) + match meta.exports {
            ExportsField::Text(s) => ts_source_candidates_spec(s@, root),
            ExportsField::Object(entries) => field_candidates(dot_value(entries@), root),
            ExportsField::Other => Seq::empty(),
        }
}

/// Every path the entry resolution of a directory may ask about.
pub open spec fn entry_candidates_spec(dir: Seq<char>, meta: Option<PackageMeta>, tsconfig: Option<TsConfigFiles>) -> Seq<Seq<char>> {
    (match meta {
        Some(m) => meta_candidates(m, dir),
        None => Seq::empty(),
    }) + (match tsconfig {
        Some(c) => tsconfig_candidates(dir, crate::ts_types::strs_of(c.files@), crate::ts_types::strs_of(c.patterns@)),
        None => Seq::empty(),
    }) + fallback_entries(dir)
}

/// Whether two sets of existing files agree on each candidate.
pub open spec fn agree_on(cs: Seq<Seq<char>>, e1: Seq<Seq<char>>, e2: Seq<Seq<char>>) -> bool {
    forall|i: int| 0 <= i < cs.len() ==> (e1.contains(#[trigger] cs[i]) <==> e2.contains(cs[i]))
}

/// The first existing candidate depends only on which candidates exist.
pub proof fn lemma_first_existing_local(cs: Seq<Seq<char>>, e1: Seq<Seq<char>>, e2: Seq<Seq<char>>)
    requires
        agree_on(cs, e1, e2),
    ensures
        first_existing(cs, e1) == first_existing(cs, e2),
    decreases cs.len(),
{
    if cs.len() > 0 {
        assert(e1.contains(cs[0]) == e2.contains(cs[0]));
        assert forall|i: int| 0 <= i < cs.drop_first().len() implies (e1.contains(#[trigger] cs.drop_first()[i]) <==> e2.contains(cs.drop_first()[i])) by {
            assert(cs.drop_first()[i] == cs[i + 1]);
        }
        lemma_first_existing_local(cs.drop_first(), e1, e2);
    }
}

proof fn lemma_agree_split(a: Seq<Seq<char>>, b: Seq<Seq<char>>, e1: Seq<Seq<char>>, e2: Seq<Seq<char>>)
    requires
        agree_on(a + b, e1, e2),
    ensures
        agree_on(a, e1, e2),
        agree_on(b, e1, e2),
{
    assert forall|i: int| 0 <= i < a.len() implies (e1.contains(#[trigger] a[i]) <==> e2.contains(a[i])) by {
        assert((a + b)[i] == a[i]);
    }
    assert forall|i: int| 0 <= i < b.len() implies (e1.contains(#[trigger] b[i]) <==> e2.contains(b[i])) by {
        assert((a + b)[a.len() + i] == b[i]);
    }
}

/// The entry of a directory depends only on which of its candidate paths
/// exist: two views of the file system that agree on the candidates give
/// the same entry.
pub proof fn lemma_dir_entry_local(
    dir: Seq<char>,
    meta: Option<PackageMeta>,
    tsconfig: Option<TsConfigFiles>,
    e1: Seq<Seq<char>>,
    e2: Seq<Seq<char>>,
)
    requires
        agree_on(entry_candidates_spec(dir, meta, tsconfig), e1, e2),
    ensures
        dir_entry(dir, meta, tsconfig, e1) == dir_entry(dir, meta, tsconfig, e2),
{
    let mc = match meta { Some(m) => meta_candidates(m, dir), None => Seq::<Seq<char>>::empty() };
    let tc = match tsconfig {
        Some(c) => tsconfig_candidates(dir, crate::ts_types::strs_of(c.files@), crate::ts_types::strs_of(c.patterns@)),
        None => Seq::<Seq<char>>::empty(),
    };
    lemma_agree_split(mc + tc, fallback_entries(dir), e1, e2);
    lemma_agree_split(mc, tc, e1, e2);
    lemma_first_existing_local(fallback_entries(dir), e1, e2);
    lemma_first_existing_local(tc, e1, e2);
    if let Some(m) = meta {
        let f1 = field_candidates(opt_str(m.types), dir);
        let f2 = field_candidates(opt_str(m.typings), dir);
        let f3 = field_candidates(opt_str(m.main), dir);
        let f4 = match m.exports {
            ExportsField::Text(s) => ts_source_candidates_spec(s@, dir),
            ExportsField::Object(entries) => field_candidates(dot_value(entries@), dir),
            ExportsField::Other => Seq::<Seq<char>>::empty(),
        };
        lemma_agree_split(f1 + f2 + f3, f4, e1, e2);
        lemma_agree_split(f1 + f2, f3, e1, e2);
        lemma_agree_split(f1, f2, e1, e2);
        lemma_first_existing_local(f1, e1, e2);
        lemma_first_existing_local(f2, e1, e2);
        lemma_first_existing_local(f3, e1, e2);
        lemma_first_existing_local(f4, e1, e2);
    }
}

fn push_all(out: &mut Vec<String>, v: Vec<String>)
    ensures
        crate::ts_types::strs_of(final(out)@) == crate::ts_types::strs_of(old(out)@) + crate::ts_types::strs_of(v@),
{
    let ghost a = crate::ts_types::strs_of(out@);
    let mut v = v;
    let ghost b = crate::ts_types::strs_of(v@);
    out.append(&mut v);
    assert(crate::ts_types::strs_of(out@) =~= a + b);
}

fn field_candidate_list(f: &Option<String>, root: &str) -> (v: Vec<String>)
    ensures
        crate::ts_types::strs_of(v@) == field_candidates(opt_str(*f), root@),
{
    match f {
        Some(p) => ts_source_candidates(p.as_str(), root),
        None => Vec::new(),
    }
}

/// Every path the entry resolution of directory `dir` may ask about, for
/// the caller to look up on disk.
pub fn entry_candidates(dir: &str, meta: &Option<PackageMeta>, tsconfig: &Option<TsConfigFiles>) -> (v: Vec<String>)
    ensures
        crate::ts_types::strs_of(v@) == entry_candidates_spec(dir@, *meta, *tsconfig),
{
    let mut v: Vec<String> = Vec::new();
    match meta {
        Some(m) => {
            push_all(&mut v, field_candidate_list(&m.types, dir));
            push_all(&mut v, field_candidate_list(&m.typings, dir));
            push_all(&mut v, field_candidate_list(&m.main, dir));
            match &m.exports {
                ExportsField::Text(s) => push_all(&mut v, ts_source_candidates(s.as_str(), dir)),
                ExportsField::Object(entries) => {
                    let d = find_dot_value(entries);
                    push_all(&mut v, field_candidate_list(&d, dir));
                },
                ExportsField::Other => {},
            }
        },
        None => {},
    }
    let ghost after_meta = crate::ts_types::strs_of(v@);
    match tsconfig {
        Some(c) => {
            push_ts_paths(&mut v, dir, &c.files, false);
            push_ts_paths(&mut v, dir, &c.patterns, true);
        },
        None => {},
    }
    let mut fallbacks: Vec<String> = Vec::new();
    fallbacks.push(path_join(dir, "index.ts"));
    fallbacks.push(path_join(dir, "index.tsx"));
    fallbacks.push(path_join(dir, "src/index.ts"));
    fallbacks.push(path_join(dir, "src/index.tsx"));
    assert(crate::ts_types::strs_of(fallbacks@) =~= fallback_entries(dir@));
    push_all(&mut v, fallbacks);
    assert(crate::ts_types::strs_of(v@) =~= entry_candidates_spec(dir@, *meta, *tsconfig));
    v
}

/// The project root of an input file: the root found above its directory,
/// or the file itself when it has no parent.
pub open spec fn file_project_root(input: Seq<char>, marked: Seq<Seq<char>>) -> Seq<char> {
    match path_parent_of(input) {
        Some(d) => project_root_spec(d, marked),
        None => input,
    }
}

/// The entry point of a project directory: from `package.json`, then from
/// `tsconfig.json`, then a well-known file.
pub open spec fn dir_entry(
    dir: Seq<char>,
    meta: Option<PackageMeta>,
    tsconfig: Option<TsConfigFiles>,
    existing: Seq<Seq<char>>,
) -> Option<Seq<char>> {
    or_else(
        match meta {
            Some(m) => entry_from_meta_spec(m, dir, existing),
            None => None,
        },
        or_else(
            match tsconfig {
                Some(c) => first_existing(
                    tsconfig_candidates(dir, crate::ts_types::strs_of(c.files@), crate::ts_types::strs_of(c.patterns@)),
                    existing,
                ),
                None => None,
            },
            first_existing(fallback_entries(dir), existing),
        ),
    )
}

/// The root of an input file's project, found among the `marked` directories.
pub fn project_root_for_file(input: &str, marked: &[String]) -> (r: String)
    ensures
        r@ == file_project_root(input@, crate::ts_types::strs_of(marked@)),
{
    match path_parent(input) {
        Some(d) => find_project_root(d.as_str(), marked),
        None => input.to_string(),
    }
}

/// Resolve the TypeScript project of `input`, given what the file system
/// shows: what `input` names, the `package.json` metadata (of the project
/// root for a file, of `input` for a directory), the `tsconfig.json` of a
/// directory, the files that exist and the directories that hold
/// `package.json` or `tsconfig.json`.
///
/// A file is the entry itself. A directory is searched for its entry
/// through its metadata, its tsconfig, then the well-known entry points.
pub fn resolve_project_from(
    input: &str,
    kind: InputKind,
    package_meta: Option<PackageMeta>,
    tsconfig: Option<TsConfigFiles>,
    existing: &[String],
    marked: &[String],
) -> (r: Result<ProjectInfo, ProjectError>)
    ensures
        kind == InputKind::File ==> (r matches Ok(p) && p.entry_file@ == input@
            && p.project_root@ == file_project_root(input@, crate::ts_types::strs_of(marked@))
            && p.package_meta == package_meta),
        kind == InputKind::Missing ==> (r matches Err(ProjectError::Missing(m)) && m@ == input@),
        kind == InputKind::Dir ==> match dir_entry(input@, package_meta, tsconfig, crate::ts_types::strs_of(existing@)) {
            Some(e) => r matches Ok(p) && p.entry_file@ == e && p.project_root@ == input@
                && p.package_meta == package_meta,
            None => r matches Err(ProjectError::NoEntry(m)) && m@ == input@,
        },
{
    match kind {
        InputKind::File => {
            let project_root = project_root_for_file(input, marked);
            return Ok(ProjectInfo { entry_file: input.to_string(), project_root, package_meta });
        },
        InputKind::Missing => {
            return Err(ProjectError::Missing(input.to_string()));
        },
        InputKind::Dir => {},
    }
    let from_meta = match &package_meta {
        Some(meta) => entry_from_package_meta(meta, input, existing),
        None => None,
    };
    if let Some(entry) = from_meta {
        return Ok(ProjectInfo { entry_file: entry, project_root: input.to_string(), package_meta });
    }
    let from_tsconfig = match &tsconfig {
        Some(config) => entry_from_tsconfig(config, input, existing),
        None => None,
    };
    if let Some(entry) = from_tsconfig {
        return Ok(ProjectInfo { entry_file: entry, project_root: input.to_string(), package_meta });
    }
    let mut fallbacks: Vec<String> = Vec::new();
    fallbacks.push(path_join(input, "index.ts"));
    fallbacks.push(path_join(input, "index.tsx"));
    fallbacks.push(path_join(input, "src/index.ts"));
    fallbacks.push(path_join(input, "src/index.tsx"));
    assert(crate::ts_types::strs_of(fallbacks@) =~= fallback_entries(input@));
    match pick_existing(&fallbacks, existing) {
        Some(entry) => Ok(ProjectInfo { entry_file: entry, project_root: input.to_string(), package_meta }),
        None => Err(ProjectError::NoEntry(input.to_string())),
    }
}

} // verus!
