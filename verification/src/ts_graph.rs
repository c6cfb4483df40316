//! The module graph of a TypeScript project: which files are parsed, in
//! which order, and which imports leave the project.
//!
//! Reading, parsing and module resolution are done by the caller; the
//! builder here decides what is queued, what is visited once, and what is
//! recorded.
use vstd::prelude::*;
use crate::text::{str_chars, str_eq};
use crate::ts_project::{contains_str, first_existing, has_ts_extension, has_ts_extension_spec, joined_path, path_join, pick_existing};
use crate::ts_types::strs_of;

verus! {

/// A parsed TypeScript module.
pub struct ParsedModule {
    /// The source text of the module.
    pub source_text: String,
}

/// An import from an external (non-local) package.
#[derive(Debug, Clone)]
pub struct ExternalImport {
    /// The import specifier (e.g. "lodash", "@types/node").
    pub specifier: String,
    /// The imported local names.
    pub names: Vec<String>,
}

/// The model of an external import: its specifier and names.
pub type ImportModel = (Seq<char>, Seq<Seq<char>>);

impl View for ExternalImport {
    type V = ImportModel;

    open spec fn view(&self) -> ImportModel {
        (self.specifier@, strs_of(self.names@))
    }
}

/// The models of a sequence of imports.
pub open spec fn imports_of(s: Seq<ExternalImport>) -> Seq<ImportModel> {
    s.map_values(|i: ExternalImport| i@)
}

/// The complete module graph for a project.
pub struct ModuleGraph {
    /// Each parsed file with its canonical path; no path occurs twice.
    pub modules: Vec<(String, ParsedModule)>,
    /// The entry file path.
    pub entry: String,
    /// All external imports encountered across all modules.
    pub external_imports: Vec<ExternalImport>,
}

/// The paths of a sequence of modules.
pub open spec fn module_paths(s: Seq<(String, ParsedModule)>) -> Seq<Seq<char>> {
    s.map_values(|m: (String, ParsedModule)| m.0@)
}

/// The paths and source texts of a sequence of modules.
pub open spec fn modules_of(s: Seq<(String, ParsedModule)>) -> Seq<(Seq<char>, Seq<char>)> {
    s.map_values(|m: (String, ParsedModule)| (m.0@, m.1.source_text@))
}

/// Whether an import specifier is local to the project (`.` or `/` first).
pub open spec fn is_local_spec(s: Seq<char>) -> bool {
    s.len() > 0 && (s[0] == '.' || s[0] == '/')
}

/// The package whose imports are the branded-type markers, never an interface.
pub open spec fn marker_package() -> Seq<char> {
    "witgenstein-ts"@
}

/// Collects the import specifiers of one module.
pub struct ImportCollector {
    pub local_specifiers: Vec<String>,
    pub external_imports: Vec<ExternalImport>,
}

impl ImportCollector {
    /// An empty collector.
    pub fn new() -> (c: Self)
        ensures
            c.local_specifiers@.len() == 0,
            c.external_imports@.len() == 0,
    {
        ImportCollector { local_specifiers: Vec::new(), external_imports: Vec::new() }
    }

    /// Whether an import specifier is local to the project.
    pub fn is_local_specifier(specifier: &str) -> (b: bool)
        ensures
            b == is_local_spec(specifier@),
    {
        let cs = str_chars(specifier);
        cs.len() > 0 && (cs[0] == '.' || cs[0] == '/')
    }

    /// Record one import declaration: a local specifier is kept for
    /// resolution; an external one is kept with its imported names, except
    /// the branded-type marker package.
    pub fn record_import(&mut self, specifier: &str, names: Vec<String>)
        ensures
            is_local_spec(specifier@) ==> strs_of(final(self).local_specifiers@) == strs_of(old(self).local_specifiers@).push(specifier@)
                && imports_of(final(self).external_imports@) == imports_of(old(self).external_imports@),
            !is_local_spec(specifier@) && specifier@ == marker_package() ==> strs_of(final(self).local_specifiers@) == strs_of(old(self).local_specifiers@)
                && imports_of(final(self).external_imports@) == imports_of(old(self).external_imports@),
            !is_local_spec(specifier@) && specifier@ != marker_package() ==> strs_of(final(self).local_specifiers@) == strs_of(old(self).local_specifiers@)
                && imports_of(final(self).external_imports@) == imports_of(old(self).external_imports@).push((specifier@, strs_of(names@))),
    {
        if Self::is_local_specifier(specifier) {
            let ghost before = strs_of(self.local_specifiers@);
            self.local_specifiers.push(specifier.to_string());
            assert(strs_of(self.local_specifiers@) =~= before.push(specifier@));
        } else if !str_eq(specifier, "witgenstein-ts") {
            let ghost before = imports_of(self.external_imports@);
            self.external_imports.push(ExternalImport { specifier: specifier.to_string(), names });
            assert(imports_of(self.external_imports@) =~= before.push((specifier@, strs_of(names@))));
        }
    }
}

/// The files tried, in order, for a local import that the resolver could
/// not resolve: the base path with each TypeScript extension, then an index
/// file in it as a directory.
pub open spec fn manual_candidates_spec(parent_dir: Seq<char>, specifier: Seq<char>) -> Seq<Seq<char>> {
    let base = joined_path(parent_dir, specifier);
    seq![
        base + ".ts"@,
        base + ".tsx"@,
        base + ".mts"@,
        base + ".cts"@,
        joined_path(base, "index.ts"@),
        joined_path(base, "index.tsx"@),
    ]
}

/// The candidate files for a local import, in the order tried.
pub fn manual_candidates(parent_dir: &str, specifier: &str) -> (v: Vec<String>)
    ensures
        strs_of(v@) == manual_candidates_spec(parent_dir@, specifier@),
{
    let base = path_join(parent_dir, specifier);
    let mut v: Vec<String> = Vec::new();
    let mut a = base.clone();
    a.push_str(".ts");
    v.push(a);
    let mut b = base.clone();
    b.push_str(".tsx");
    v.push(b);
    let mut c = base.clone();
    c.push_str(".mts");
    v.push(c);
    let mut d = base.clone();
    d.push_str(".cts");
    v.push(d);
    v.push(path_join(base.as_str(), "index.ts"));
    v.push(path_join(base.as_str(), "index.tsx"));
    assert(strs_of(v@) =~= manual_candidates_spec(parent_dir@, specifier@));
    v
}

/// Manually resolve a local import with the common TypeScript extensions:
/// the first candidate among the files that exist.
pub fn try_manual_resolve(parent_dir: &str, specifier: &str, existing: &[String]) -> (r: Option<String>)
    ensures
        crate::ts_project::opt_str(r) == first_existing(manual_candidates_spec(parent_dir@, specifier@), strs_of(existing@)),
{
    let candidates = manual_candidates(parent_dir, specifier);
    pick_existing(&candidates, existing)
}

/// The state of a module-graph walk.
pub struct GraphState {
    /// Files still to visit; the last is visited next.
    pub queue: Seq<Seq<char>>,
    /// Canonical paths already entered, in order.
    pub visited: Seq<Seq<char>>,
    /// The file being read, once entered.
    pub current: Option<Seq<char>>,
    /// The modules read, with their source text.
    pub modules: Seq<(Seq<char>, Seq<char>)>,
    /// The external imports recorded.
    pub externals: Seq<ImportModel>,
}

/// Builds a module graph, one file at a time.
pub struct GraphBuilder {
    queue: Vec<String>,
    visited: Vec<String>,
    current: Option<String>,
    modules: Vec<(String, ParsedModule)>,
    external_imports: Vec<ExternalImport>,
}

impl View for GraphBuilder {
    type V = GraphState;

    closed spec fn view(&self) -> GraphState {
        GraphState {
            queue: strs_of(self.queue@),
            visited: strs_of(self.visited@),
            current: crate::ts_project::opt_str(self.current),
            modules: modules_of(self.modules@),
            externals: imports_of(self.external_imports@),
        }
    }
}

/// The paths of the modules of a graph state.
pub open spec fn state_paths(s: Seq<(Seq<char>, Seq<char>)>) -> Seq<Seq<char>> {
    s.map_values(|m: (Seq<char>, Seq<char>)| m.0)
}

/// The graph state invariant: each path is entered once, each module was
/// entered and is read once, and the file being read has no module yet.
pub open spec fn graph_state_ok(st: GraphState) -> bool {
    &&& st.visited.no_duplicates()
    &&& state_paths(st.modules).no_duplicates()
    &&& forall|i: int| 0 <= i < st.modules.len() ==> st.visited.contains(#[trigger] st.modules[i].0)
    &&& st.current matches Some(c) ==> st.visited.contains(c)
        && !state_paths(st.modules).contains(c)
}

impl GraphBuilder {
    #[verifier::type_invariant]
    closed spec fn inv(self) -> bool {
        graph_state_ok(self@)
    }

    /// A walk that starts at `entry`.
    pub fn new(entry: String) -> (b: Self)
        ensures
            b@ == (GraphState {
                queue: seq![entry@],
                visited: Seq::empty(),
                current: None,
                modules: Seq::empty(),
                externals: Seq::empty(),
            }),
    {
        let mut queue: Vec<String> = Vec::new();
        queue.push(entry);
        let b = GraphBuilder {
            queue,
            visited: Vec::new(),
            current: None,
            modules: Vec::new(),
            external_imports: Vec::new(),
        };
        assert(b@.queue =~= seq![entry@]);
        assert(b@.visited =~= Seq::<Seq<char>>::empty());
        assert(b@.modules =~= Seq::<(Seq<char>, Seq<char>)>::empty());
        assert(b@.externals =~= Seq::<ImportModel>::empty());
        b
    }

    /// The next file to visit, taken from the end of the queue.
    pub fn next_file(&mut self) -> (r: Option<String>)
        ensures
            old(self)@.queue.len() == 0 ==> r is None && final(self)@ == old(self)@,
            old(self)@.queue.len() > 0 ==> (r matches Some(f) && f@ == old(self)@.queue.last())
                && final(self)@ == (GraphState { queue: old(self)@.queue.drop_last(), ..old(self)@ }),
    {
        proof { use_type_invariant(&*self); }
        let mut queue: Vec<String> = Vec::new();
        std::mem::swap(&mut queue, &mut self.queue);
        let ghost before = strs_of(queue@);
        let r = queue.pop();
        assert(strs_of(queue@) =~= if before.len() == 0 { before } else { before.drop_last() });
        self.queue = queue;
        r
    }

    /// Whether `path` was entered already.
    pub fn is_visited(&self, path: &str) -> (b: bool)
        ensures
            b == self@.visited.contains(path@),
    {
        contains_str(self.visited.as_slice(), path)
    }

    /// Enter a file by its canonical path: `false`, with nothing changed but
    /// the file being read, when it was entered before.
    pub fn enter(&mut self, canonical: String) -> (entered: bool)
        ensures
            entered == !old(self)@.visited.contains(canonical@),
            entered ==> final(self)@ == (GraphState {
                visited: old(self)@.visited.push(canonical@),
                current: Some(canonical@),
                ..old(self)@
            }),
            !entered ==> final(self)@ == (GraphState { current: None, ..old(self)@ }),
    {
        proof { use_type_invariant(&*self); }
        if self.is_visited(canonical.as_str()) {
            self.current = None;
            return false;
        }
        let ghost before = self@;
        let mut taken = GraphBuilder {
            queue: Vec::new(),
            visited: Vec::new(),
            current: None,
            modules: Vec::new(),
            external_imports: Vec::new(),
        };
        proof {
            assert(taken@.visited =~= Seq::<Seq<char>>::empty());
            assert(taken@.modules =~= Seq::<(Seq<char>, Seq<char>)>::empty());
        }
        std::mem::swap(&mut taken, self);
        proof {
            use_type_invariant(&taken);
            assert(taken@ == before);
        }
        let GraphBuilder { queue, mut visited, current: _, modules, external_imports } = taken;
        visited.push(canonical.clone());
        proof {
            assert(strs_of(visited@) =~= before.visited.push(canonical@));
            assert(!before.visited.contains(canonical@));
            assert forall|i: int| 0 <= i < before.modules.len() implies strs_of(visited@).contains(#[trigger] before.modules[i].0) by {
                let j = choose|j: int| 0 <= j < before.visited.len() && before.visited[j] == before.modules[i].0;
                assert(strs_of(visited@)[j] == before.modules[i].0);
            }
            assert(!state_paths(before.modules).contains(canonical@)) by {
                if state_paths(before.modules).contains(canonical@) {
                    let k = choose|k: int| 0 <= k < before.modules.len() && #[trigger] state_paths(before.modules)[k] == canonical@;
                    assert(before.visited.contains(before.modules[k].0));
                }
            }
        }
        proof {
            let nv = strs_of(visited@);
            assert(nv.no_duplicates()) by {
                assert forall|i: int, j: int| 0 <= i < j < nv.len() implies nv[i] != nv[j] by {
                    if j == nv.len() - 1 {
                        assert(before.visited[i] == nv[i]);
                        assert(before.visited.contains(before.visited[i]));
                    } else {
                        assert(before.visited[i] == nv[i] && before.visited[j] == nv[j]);
                    }
                }
            }
            assert(nv.contains(canonical@)) by {
                assert(nv[nv.len() - 1] == canonical@);
            }
            assert(modules_of(modules@) == before.modules);
        }
        *self = GraphBuilder { queue, visited, current: Some(canonical), modules, external_imports };
        true
    }

    /// Queue a file the resolver found for a local import, when it has a
    /// TypeScript extension and was not visited.
    pub fn queue_resolved(&mut self, path: String)
        ensures
            has_ts_extension_spec(path@) && !old(self)@.visited.contains(path@) ==> final(self)@ == (GraphState {
                queue: old(self)@.queue.push(path@),
                ..old(self)@
            }),
            !(has_ts_extension_spec(path@) && !old(self)@.visited.contains(path@)) ==> final(self)@ == old(self)@,
    {
        if has_ts_extension(path.as_str()) && !self.is_visited(path.as_str()) {
            self.push_queue(path);
        }
    }

    /// Queue the outcome of a manual resolution when it was not visited;
    /// `false` when there was none, and a warning is due.
    pub fn queue_manual(&mut self, resolved: Option<String>) -> (found: bool)
        ensures
            found == resolved is Some,
            resolved is Some && !old(self)@.visited.contains(resolved.unwrap()@) ==> final(self)@ == (GraphState {
                queue: old(self)@.queue.push(resolved.unwrap()@),
                ..old(self)@
            }),
            !(resolved is Some && !old(self)@.visited.contains(resolved.unwrap()@)) ==> final(self)@ == old(self)@,
    {
        match resolved {
            Some(p) => {
                if !self.is_visited(p.as_str()) {
                    self.push_queue(p);
                }
                true
            },
            None => false,
        }
    }

    fn push_queue(&mut self, path: String)
        ensures
            final(self)@ == (GraphState { queue: old(self)@.queue.push(path@), ..old(self)@ }),
    {
        proof { use_type_invariant(&*self); }
        let ghost before = strs_of(self.queue@);
        let mut queue: Vec<String> = Vec::new();
        std::mem::swap(&mut queue, &mut self.queue);
        queue.push(path);
        assert(strs_of(queue@) =~= before.push(path@));
        self.queue = queue;
    }

    /// Record the module being read, with its source text and the external
    /// imports it makes.
    pub fn add_module(&mut self, source_text: String, imports: Vec<ExternalImport>)
        requires
            old(self)@.current is Some,
        ensures
            final(self)@ == (GraphState {
                current: None,
                modules: old(self)@.modules.push((old(self)@.current.unwrap(), source_text@)),
                externals: old(self)@.externals + imports_of(imports@),
                ..old(self)@
            }),
    {
        proof { use_type_invariant(&*self); }
        let ghost before = self@;
        let path = match &self.current {
            Some(c) => c.clone(),
            None => return,
        };
        let mut modules: Vec<(String, ParsedModule)> = Vec::new();
        std::mem::swap(&mut modules, &mut self.modules);
        modules.push((path, ParsedModule { source_text }));
        let mut externals: Vec<ExternalImport> = Vec::new();
        std::mem::swap(&mut externals, &mut self.external_imports);
        let mut imports = imports;
        let ghost added = imports_of(imports@);
        externals.append(&mut imports);
        proof {
            let c = before.current.unwrap();
            let old_paths = state_paths(before.modules);
            assert(modules_of(modules@) =~= before.modules.push((c, source_text@)));
            assert(imports_of(externals@) =~= before.externals + added);
            let new_paths = state_paths(modules_of(modules@));
            assert(new_paths =~= old_paths.push(c));
            assert forall|i: int, j: int| 0 <= i < j < new_paths.len() implies new_paths[i] != new_paths[j] by {
                if j == new_paths.len() - 1 {
                    assert(old_paths[i] == new_paths[i]);
                    assert(old_paths.contains(old_paths[i]));
                }
            }
        }
        self.current = None;
        self.modules = modules;
        self.external_imports = externals;
    }

    /// The graph built, with the canonical entry path.
    pub fn finish(self, entry: String) -> (g: ModuleGraph)
        ensures
            graph_state_ok(self@),
            modules_of(g.modules@) == self@.modules,
            module_paths(g.modules@).no_duplicates(),
            g.entry@ == entry@,
            imports_of(g.external_imports@) == self@.externals,
    {
        proof { use_type_invariant(&self); }
        let g = ModuleGraph { modules: self.modules, entry, external_imports: self.external_imports };
        assert(module_paths(g.modules@) =~= state_paths(self@.modules));
        g
    }
}

} // verus!
