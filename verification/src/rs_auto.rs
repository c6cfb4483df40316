//! Diagnostics and discovery results of the rustdoc-based WIT generator.
use vstd::prelude::*;
use crate::text::str_eq;
use crate::rs_syntax::RustItem;
use crate::rs_discover::{has_export, impl_type_name_spec};

verus! {

/// The severity of a diagnostic.
#[derive(Debug, Clone, Copy, PartialEq, Eq, Structural)]
pub enum DiagnosticKind {
    Warning,
    Error,
}

/// A diagnostic message produced during WIT generation.
#[derive(Debug)]
pub struct Diagnostic {
    pub kind: DiagnosticKind,
    pub message: String,
    pub source_path: Option<String>,
}

impl Diagnostic {
    /// A warning without a source path.
    pub fn warning(message: String) -> (d: Self)
        ensures
            d.kind == DiagnosticKind::Warning,
            d.message@ == message@,
            d.source_path is None,
    {
        Diagnostic { kind: DiagnosticKind::Warning, message, source_path: None }
    }

    /// An error without a source path.
    pub fn error(message: String) -> (d: Self)
        ensures
            d.kind == DiagnosticKind::Error,
            d.message@ == message@,
            d.source_path is None,
    {
        Diagnostic { kind: DiagnosticKind::Error, message, source_path: None }
    }

    /// The same diagnostic, attributed to a source path.
    pub fn with_path(self, path: String) -> (d: Self)
        ensures
            d.kind == self.kind,
            d.message@ == self.message@,
            d.source_path matches Some(p) && p@ == path@,
    {
        Diagnostic { kind: self.kind, message: self.message, source_path: Some(path) }
    }
}

/// An exported item discovered from source scanning.
#[derive(Debug, Clone, PartialEq, Eq, Hash)]
pub enum ExportedItem {
    /// A standalone exported function, with its module-qualified name.
    Function(String),
    /// An exported impl block, with the type name and module-qualified path.
    Impl(String),
}

/// The model of an exported item: whether it is an `impl`, and its name.
pub type ExportedItemModel = (bool, Seq<char>);

impl View for ExportedItem {
    type V = ExportedItemModel;

    open spec fn view(&self) -> ExportedItemModel {
        match self {
            ExportedItem::Function(n) => (false, n@),
            ExportedItem::Impl(n) => (true, n@),
        }
    }
}

/// The models of a sequence of items.
pub open spec fn items_of(s: Seq<ExportedItem>) -> Seq<ExportedItemModel> {
    s.map_values(|i: ExportedItem| i@)
}

/// Result of scanning a crate's source files for `#[export]` markers: each
/// item once.
pub struct DiscoverResult {
    items: Vec<ExportedItem>,
}

impl View for DiscoverResult {
    type V = Set<ExportedItemModel>;

    closed spec fn view(&self) -> Set<ExportedItemModel> {
        items_of(self.items@).to_set()
    }
}

fn same_item(a: &ExportedItem, b: &ExportedItem) -> (r: bool)
    ensures
        r == (a@ == b@),
{
    match (a, b) {
        (ExportedItem::Function(x), ExportedItem::Function(y)) => str_eq(x.as_str(), y.as_str()),
        (ExportedItem::Impl(x), ExportedItem::Impl(y)) => str_eq(x.as_str(), y.as_str()),
        _ => false,
    }
}

impl DiscoverResult {
    #[verifier::type_invariant]
    closed spec fn inv(self) -> bool {
        items_of(self.items@).no_duplicates()
    }

    /// No items.
    pub fn new() -> (r: Self)
        ensures
            r@ == Set::<ExportedItemModel>::empty(),
    {
        let r = DiscoverResult { items: Vec::new() };
        assert(items_of(r.items@).to_set() =~= Set::<ExportedItemModel>::empty());
        r
    }

    /// Whether `item` was discovered.
    pub fn contains(&self, item: &ExportedItem) -> (b: bool)
        ensures
            b == self@.contains(item@),
    {
        let mut i: usize = 0;
        while i < self.items.len()
            invariant
                i <= self.items.len(),
                forall|j: int| 0 <= j < i ==> items_of(self.items@)[j] != item@,
            decreases self.items.len() - i,
        {
            if same_item(&self.items[i], item) {
                assert(items_of(self.items@)[i as int] == item@);
                return true;
            }
            i = i + 1;
        }
        false
    }

    /// Adds `item`, once.
    pub fn insert(&mut self, item: ExportedItem)
        ensures
            final(self)@ == old(self)@.insert(item@),
    {
        proof { use_type_invariant(&*self); }
        if self.contains(&item) {
            assert(self@.insert(item@) =~= self@);
            return;
        }
        let ghost old_items = items_of(self.items@);
        let ghost m = item@;
        let mut items: Vec<ExportedItem> = Vec::new();
        std::mem::swap(&mut items, &mut self.items);
        items.push(item);
        proof {
            assert(items_of(items@) == old_items.push(m));
            assert(items_of(items@).no_duplicates());
            old_items.lemma_push_to_set_commute(m);
            assert(items_of(items@).to_set() =~= old_items.to_set().insert(m));
        }
        self.items = items;
    }

    /// The number of items discovered.
    pub fn len(&self) -> (n: usize)
        ensures
            n == self@.len(),
    {
        proof {
            use_type_invariant(self);
            items_of(self.items@).unique_seq_to_set();
        }
        self.items.len()
    }

    /// The items discovered, in the order they were found.
    pub fn items(&self) -> (v: &Vec<ExportedItem>)
        ensures
            items_of(v@).to_set() == self@,
    {
        &self.items
    }
}

/// The module-qualified name of `name`: the module path and the name joined by `::`.
pub open spec fn qualified_name_spec(modules: Seq<Seq<char>>, name: Seq<char>) -> Seq<char>
    decreases modules.len(),
{
    if modules.len() == 0 {
        name
    } else {
        qualified_name_spec(modules.drop_last(), modules.last() + "::"@ + name)
    }
}

/// The module-qualified name of an item.
pub fn qualified_name(modules: &Vec<String>, name: &str) -> (s: String)
    ensures
        s@ == qualified_name_spec(crate::ts_types::strs_of(modules@), name@),
{
    let ghost mp = crate::ts_types::strs_of(modules@);
    let mut acc = String::new();
    acc.push_str(name);
    let mut i: usize = modules.len();
    assert(mp.take(i as int) == mp);
    while i > 0
        invariant
            i <= modules.len(),
            mp == crate::ts_types::strs_of(modules@),
            qualified_name_spec(mp.take(i as int), acc@) == qualified_name_spec(mp, name@),
        decreases i,
    {
        let mut next = String::new();
        next.push_str(modules[i - 1].as_str());
        next.push_str("::");
        next.push_str(acc.as_str());
        proof {
            assert(mp.take(i as int).drop_last() == mp.take(i - 1));
            assert(mp.take(i as int).last() == modules@[i - 1]@);
        }
        acc = next;
        i = i - 1;
    }
    acc
}


/// The exported items of `items` in the module at `path`: functions and
/// impl blocks with `#[export]` (an impl block only when its type is a
/// path), named with their module path, and those of inline modules.
pub open spec fn items_exports(path: Seq<Seq<char>>, items: Seq<RustItem>) -> Set<ExportedItemModel>
    decreases items, 0nat,
{
    if items.len() == 0 {
        Set::empty()
    } else {
        item_exports(path, items[0]) + items_exports(path, items.drop_first())
    }
}

/// The exported items of one item in the module at `path`.
pub open spec fn item_exports(path: Seq<Seq<char>>, it: RustItem) -> Set<ExportedItemModel>
    decreases it, 1nat,
{
    match it {
        RustItem::Fn(f) => if has_export(f.attrs@) {
            set![(false, qualified_name_spec(path, f.sig.name@))]
        } else {
            Set::empty()
        },
        RustItem::Impl(imp) => if has_export(imp.attrs@) {
            match impl_type_name_spec(imp.self_ty) {
                Some(n) => set![(true, qualified_name_spec(path, n))],
                None => Set::empty(),
            }
        } else {
            Set::empty()
        },
        RustItem::Mod { name, items } => items_exports(path.push(name@), items@),
        _ => Set::empty(),
    }
}

/// The module paths of the modules declared in `items` whose items are in
/// other files, in order, inline modules included.
pub open spec fn items_decls(path: Seq<Seq<char>>, items: Seq<RustItem>) -> Seq<Seq<Seq<char>>>
    decreases items, 0nat,
{
    if items.len() == 0 {
        Seq::empty()
    } else {
        item_decls(path, items[0]) + items_decls(path, items.drop_first())
    }
}

/// The module paths of the file modules one item declares.
pub open spec fn item_decls(path: Seq<Seq<char>>, it: RustItem) -> Seq<Seq<Seq<char>>>
    decreases it, 1nat,
{
    match it {
        RustItem::ModDecl(n) => seq![path.push(n@)],
        RustItem::Mod { name, items } => items_decls(path.push(name@), items@),
        _ => Seq::empty(),
    }
}

/// The module paths of a list of paths.
pub open spec fn paths_of(s: Seq<Vec<String>>) -> Seq<Seq<Seq<char>>> {
    s.map_values(|p: Vec<String>| crate::ts_types::strs_of(p@))
}

fn copy_path(p: &Vec<String>) -> (r: Vec<String>)
    ensures
        crate::ts_types::strs_of(r@) == crate::ts_types::strs_of(p@),
{
    let mut r: Vec<String> = Vec::new();
    let mut i: usize = 0;
    while i < p.len()
        invariant
            i <= p.len(),
            crate::ts_types::strs_of(r@) == crate::ts_types::strs_of(p@.take(i as int)),
        decreases p.len() - i,
    {
        let c = p[i].clone();
        let ghost before = crate::ts_types::strs_of(r@);
        r.push(c);
        proof {
            assert(p@.take(i + 1) =~= p@.take(i as int).push(p@[i as int]));
            assert(crate::ts_types::strs_of(r@) =~= before.push(c@));
            assert(crate::ts_types::strs_of(p@.take(i + 1)) =~= crate::ts_types::strs_of(p@.take(i as int)).push(p@[i as int]@));
        }
        i = i + 1;
    }
    assert(p@.take(p.len() as int) =~= p@);
    r
}

/// Collect the exported items of the items of one module at `modules`
/// into `result`, recursing into inline modules; the paths of modules whose
/// items are in other files are appended to `pending`, for the caller to
/// read and visit in turn.
pub fn visit_items(modules: &Vec<String>, items: &Vec<RustItem>, result: &mut DiscoverResult, pending: &mut Vec<Vec<String>>)
    ensures
        final(result)@ == old(result)@ + items_exports(crate::ts_types::strs_of(modules@), items@),
        paths_of(final(pending)@) == paths_of(old(pending)@) + items_decls(crate::ts_types::strs_of(modules@), items@),
    decreases *items,
{
    let ghost path = crate::ts_types::strs_of(modules@);
    let ghost r0 = result@;
    let ghost p0 = paths_of(pending@);
    proof {
        vstd::std_specs::vec::axiom_vec_decreases_to_view(*items);
    }
    let mut i: usize = 0;
    assert(items@.skip(0) == items@);
    assert(r0 + items_exports(path, items@) =~= r0 + items_exports(path, items@));
    while i < items.len()
        invariant
            i <= items.len(),
            path == crate::ts_types::strs_of(modules@),
            decreases_to!(*items => items@),
            result@ + items_exports(path, items@.skip(i as int)) == r0 + items_exports(path, items@),
            paths_of(pending@) + items_decls(path, items@.skip(i as int)) == p0 + items_decls(path, items@),
        decreases items.len() - i,
    {
        let ghost ri = result@;
        let ghost pi = paths_of(pending@);
        proof {
            assert(items@.skip(i as int)[0] == items@[i as int]);
            assert(items@.skip(i as int).drop_first() == items@.skip(i + 1));
            assert(decreases_to!(items@ => items@[i as int]));
        }
        match &items[i] {
            RustItem::Fn(f) => {
                if crate::rs_discover::has_export_attr(&f.attrs) {
                    let name = qualified_name(modules, f.sig.name.as_str());
                    let item = ExportedItem::Function(name);
                    result.insert(item);
                    assert(ri.insert(item@) =~= ri + set![item@]);
                } else {
                    assert(ri + Set::<ExportedItemModel>::empty() =~= ri);
                }
                assert(pi + Seq::<Seq<Seq<char>>>::empty() =~= pi);
            },
            RustItem::Impl(imp) => {
                if crate::rs_discover::has_export_attr(&imp.attrs) {
                    match crate::rs_discover::impl_type_name(imp) {
                        Some(n) => {
                            let name = qualified_name(modules, n.as_str());
                            let item = ExportedItem::Impl(name);
                            result.insert(item);
                            assert(ri.insert(item@) =~= ri + set![item@]);
                        },
                        None => {
                            assert(ri + Set::<ExportedItemModel>::empty() =~= ri);
                        },
                    }
                } else {
                    assert(ri + Set::<ExportedItemModel>::empty() =~= ri);
                }
                assert(pi + Seq::<Seq<Seq<char>>>::empty() =~= pi);
            },
            RustItem::Mod { name, items: inner } => {
                proof {
                    assert(decreases_to!(items@[i as int] => *inner));
                }
                let mut child = copy_path(modules);
                child.push(name.clone());
                proof {
                    assert(crate::ts_types::strs_of(child@) =~= path.push(name@));
                }
                visit_items(&child, inner, result, pending);
            },
            RustItem::ModDecl(n) => {
                let mut child = copy_path(modules);
                child.push(n.clone());
                let ghost cp = crate::ts_types::strs_of(child@);
                proof {
                    assert(cp =~= path.push(n@));
                }
                pending.push(child);
                proof {
                    assert(paths_of(pending@) =~= pi.push(cp));
                    assert(pi.push(cp) =~= pi + seq![cp]);
                }
                assert(ri + Set::<ExportedItemModel>::empty() =~= ri);
            },
            _ => {
                assert(ri + Set::<ExportedItemModel>::empty() =~= ri);
                assert(pi + Seq::<Seq<Seq<char>>>::empty() =~= pi);
            },
        }
        proof {
            let e = item_exports(path, items@[i as int]);
            let rest = items_exports(path, items@.skip(i + 1));
            assert(ri + (e + rest) =~= (ri + e) + rest);
            let d = item_decls(path, items@[i as int]);
            let drest = items_decls(path, items@.skip(i + 1));
            assert(pi + (d + drest) =~= (pi + d) + drest);
        }
        i = i + 1;
    }
    assert(items@.skip(items.len() as int) =~= Seq::<RustItem>::empty());
    assert(result@ + Set::<ExportedItemModel>::empty() =~= result@);
    assert(paths_of(pending@) + Seq::<Seq<Seq<char>>>::empty() =~= paths_of(pending@));
}


/// Configuration for WIT emission from discovered exports.
pub struct EmitConfig {
    pub namespace: String,
    pub package_name: String,
    pub version: Option<String>,
}

/// The WIT package generated from discovered exports, before rendering: a
/// `types` interface with the type definitions and resources, and a world
/// named after the package that exports it and the standalone functions.
pub struct AutoWitPackage {
    pub namespace: String,
    pub package_name: String,
    /// The version, when it is valid SemVer.
    pub version: Option<crate::rs_wit_map::SemVer>,
    /// The `types` interface, when there are type definitions or resources.
    pub types_interface: Option<crate::ts_types::WitInterface>,
    pub world_name: String,
    /// Whether the world exports the `types` interface.
    pub exports_types: bool,
    /// The functions the world exports.
    pub world_functions: Vec<crate::ts_types::WitFunc>,
}

/// Assemble the WIT package of discovered exports.
pub fn emit_wit(config: &EmitConfig, resolved: &crate::rs_resolve::ResolveResult) -> (p: AutoWitPackage)
    ensures
        p.namespace@ == config.namespace@,
        p.package_name@ == config.package_name@,
        crate::rs_wit_map::opt_semver(p.version) == match config.version {
            Some(v) => crate::rs_wit_map::semver_of(v@),
            None => None,
        },
        p.world_name@ == config.package_name@,
        p.exports_types == (resolved.type_defs@.len() > 0 || resolved.impls@.len() > 0),
        p.exports_types ==> (p.types_interface matches Some(i) && i@ == crate::ts_types::InterfaceModel {
            name: "types"@,
            type_defs: crate::rs_wit_map::defs_mapped(crate::rs_resolve::defs_of(resolved.type_defs@))
                + crate::rs_wit_map::impls_mapped(crate::rs_resolve::impls_of(resolved.impls@)),
            functions: Seq::empty(),
        }),
        !p.exports_types ==> p.types_interface is None,
        crate::ts_types::funcs_of(p.world_functions@)
            == crate::rs_resolve::fns_of(resolved.functions@).map_values(|f: crate::rs_resolve::FnModel| crate::rs_wit_map::map_fn_spec(f)),
{
    let version = match &config.version {
        Some(v) => crate::rs_wit_map::parse_version(v.as_str()),
        None => None,
    };
    let exports_types = resolved.type_defs.len() > 0 || resolved.impls.len() > 0;
    let types_interface = if exports_types {
        let type_defs = crate::rs_wit_map::map_defs_and_resources(resolved);
        let functions: Vec<crate::ts_types::WitFunc> = Vec::new();
        assert(crate::ts_types::funcs_of(functions@) =~= Seq::<crate::ts_types::FuncModel>::empty());
        Some(crate::ts_types::WitInterface { name: "types".to_string(), type_defs, functions })
    } else {
        None
    };
    AutoWitPackage {
        namespace: config.namespace.clone(),
        package_name: config.package_name.clone(),
        version,
        types_interface,
        world_name: config.package_name.clone(),
        exports_types,
        world_functions: crate::rs_wit_map::map_functions(&resolved.functions),
    }
}

/// The WIT package identity taken from cargo metadata: the package name
/// with `_` written `-`, as namespace and name, and the package version.
pub fn package_from_cargo(name: &str, version: &str) -> (r: (String, String, Option<String>))
    ensures
        r.0@ == name@.map_values(|c: char| if c == '_' { '-' } else { c }),
        r.1@ == r.0@,
        r.2 matches Some(v) && v@ == version@,
{
    let cs = crate::text::str_chars(name);
    let mut out: Vec<char> = Vec::new();
    let mut i: usize = 0;
    while i < cs.len()
        invariant
            i <= cs.len(),
            cs@ == name@,
            out@ == name@.take(i as int).map_values(|c: char| if c == '_' { '-' } else { c }),
        decreases cs.len() - i,
    {
        let c = cs[i];
        out.push(if c == '_' { '-' } else { c });
        assert(name@.take(i + 1).map_values(|c: char| if c == '_' { '-' } else { c })
            =~= name@.take(i as int).map_values(|c: char| if c == '_' { '-' } else { c }).push(if c == '_' { '-' } else { c }));
        i = i + 1;
    }
    assert(name@.take(cs.len() as int) =~= name@);
    let n = crate::text::string_from_chars(out.as_slice());
    (n.clone(), n, Some(version.to_string()))
}

} // verus!
