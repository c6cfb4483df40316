//! Parsing a TypeScript module for the module graph: its top-level import
//! declarations, and the step of the graph walk that records a module.
use vstd::prelude::*;
use oxc_allocator::Allocator;
use oxc_ast::ast::Statement;
use oxc_parser::Parser;
use oxc_span::SourceType;
use crate::rs_glue_gen::{join_strings, joined};
use crate::ts_graph::{
    imports_of, is_local_spec, marker_package, ExternalImport, GraphBuilder, GraphState, ImportCollector, ImportModel,
};
use crate::ts_parse::TsParse::{Failed, Parsed};
use crate::ts_parse::TsStatement::{Import, Other};
use crate::ts_types::strs_of;

verus! {

/// A top-level statement of a module, as the module graph reads it.
pub enum TsStatement {
    /// `import .. from "source"`: the source, and the local names the
    /// declaration binds, in order.
    Import(String, Vec<String>),
    /// Any other statement.
    Other,
}

/// The model of a top-level statement.
pub enum TsStatementModel {
    Import(Seq<char>, Seq<Seq<char>>),
    Other,
}

impl View for TsStatement {
    type V = TsStatementModel;

    open spec fn view(&self) -> TsStatementModel {
        match self {
            TsStatement::Import(s, ns) => TsStatementModel::Import(s@, strs_of(ns@)),
            TsStatement::Other => TsStatementModel::Other,
        }
    }
}

/// The models of a sequence of statements.
pub open spec fn statements_of(s: Seq<TsStatement>) -> Seq<TsStatementModel> {
    s.map_values(|t: TsStatement| t@)
}

/// What parsing a module gives: its top-level statements, or, when the
/// parse failed, whether the parser gave up early and its error messages.
pub enum TsParse {
    Parsed(Vec<TsStatement>),
    Failed(bool, Vec<String>),
}

/// The model of a parse.
pub enum TsParseModel {
    Parsed(Seq<TsStatementModel>),
    Failed(bool, Seq<Seq<char>>),
}

impl View for TsParse {
    type V = TsParseModel;

    open spec fn view(&self) -> TsParseModel {
        match self {
            TsParse::Parsed(ss) => TsParseModel::Parsed(statements_of(ss@)),
            TsParse::Failed(p, es) => TsParseModel::Failed(*p, strs_of(es@)),
        }
    }
}

/// The model of a parse, or of the message that the file's extension is not
/// one of JavaScript or TypeScript.
pub open spec fn parse_result_of(r: Result<TsParse, String>) -> Result<TsParseModel, Seq<char>> {
    match r {
        Ok(p) => Ok(p@),
        Err(e) => Err(e@),
    }
}

/// What the oxc parser gives for the module at `path` with text `source`.
pub uninterp spec fn ts_parse_of(path: Seq<char>, source: Seq<char>) -> Result<TsParseModel, Seq<char>>;

/// Parses a module with oxc: the file type from the path's extension
/// (`oxc_span::SourceType::from_path`, its error message when it knows no
/// such extension), then `oxc_parser::Parser::parse`, taking each top-level
/// statement apart.
///
/// Trusted: the result is named `ts_parse_of`, a function of the path and the
/// text alone; the grammar is not restated. Imports nested in other
/// statements are not read.
#[verifier::external_body]
pub fn parse_ts_module(path: &str, source: &str) -> (r: Result<TsParse, String>)
    ensures
        parse_result_of(r) == ts_parse_of(path@, source@),
{
    let kind = SourceType::from_path(path).map_err(|e| e.to_string())?;
    let alloc = Allocator::default();
    let ret = Parser::new(&alloc, source, kind).parse();
    if !ret.diagnostics.is_empty() {
        return Ok(Failed(ret.panicked, ret.diagnostics.iter().map(ToString::to_string).collect()));
    }
    Ok(Parsed(ret.program.body.iter().map(|s| match s {
        Statement::ImportDeclaration(d) => Import(
            d.source.value.to_string(),
            d.specifiers.iter().flatten().map(|x| x.name().to_string()).collect(),
        ),
        _ => Other,
    }).collect()))
}

/// The local import specifiers among statements, in order.
pub open spec fn local_specs(ss: Seq<TsStatementModel>) -> Seq<Seq<char>>
    decreases ss.len(),
{
    if ss.len() == 0 {
        Seq::empty()
    } else {
        let pre = local_specs(ss.drop_last());
        match ss.last() {
            TsStatementModel::Import(s, _) => if is_local_spec(s) { pre.push(s) } else { pre },
            TsStatementModel::Other => pre,
        }
    }
}

/// The imports from outside the project among statements, in order: those
/// whose specifier is not local, but for the branded-type marker package.
pub open spec fn external_specs(ss: Seq<TsStatementModel>) -> Seq<ImportModel>
    decreases ss.len(),
{
    if ss.len() == 0 {
        Seq::empty()
    } else {
        let pre = external_specs(ss.drop_last());
        match ss.last() {
            TsStatementModel::Import(s, ns) => if !is_local_spec(s) && s != marker_package() { pre.push((s, ns)) } else { pre },
            TsStatementModel::Other => pre,
        }
    }
}

/// Collect the import declarations among statements.
pub fn module_imports(ss: &Vec<TsStatement>) -> (c: ImportCollector)
    ensures
        strs_of(c.local_specifiers@) == local_specs(statements_of(ss@)),
        imports_of(c.external_imports@) == external_specs(statements_of(ss@)),
{
    let mut c = ImportCollector::new();
    let mut i: usize = 0;
    proof {
        assert(statements_of(ss@).take(0) =~= Seq::<TsStatementModel>::empty());
        assert(strs_of(c.local_specifiers@) =~= Seq::<Seq<char>>::empty());
        assert(imports_of(c.external_imports@) =~= Seq::<ImportModel>::empty());
    }
    while i < ss.len()
        invariant
            i <= ss.len(),
            strs_of(c.local_specifiers@) == local_specs(statements_of(ss@).take(i as int)),
            imports_of(c.external_imports@) == external_specs(statements_of(ss@).take(i as int)),
        decreases ss.len() - i,
    {
        let ghost pre = statements_of(ss@).take(i as int);
        let ghost next = statements_of(ss@).take(i + 1);
        proof {
            assert(next.drop_last() =~= pre);
            assert(next.last() == ss@[i as int]@);
        }
        match &ss[i] {
            TsStatement::Import(s, ns) => {
                c.record_import(s.as_str(), ns.clone());
            },
            TsStatement::Other => {},
        }
        i = i + 1;
    }
    proof { assert(statements_of(ss@).take(ss.len() as int) =~= statements_of(ss@)); }
    c
}

/// The message of a failed parse of the module at `path`.
pub open spec fn parse_failure_message(path: Seq<char>, panicked: bool, errors: Seq<Seq<char>>) -> Seq<char> {
    if panicked {
        "parser panicked on file: "@ + path
    } else {
        "parse errors in "@ + path + ":\n"@ + joined(errors, "\n"@)
    }
}

/// The message for a module whose extension the parser does not know.
pub open spec fn unknown_file_message(path: Seq<char>, e: Seq<char>) -> Seq<char> {
    "unsupported file type "@ + path + ": "@ + e
}

/// One step of the module-graph walk: parse the module being read, found at
/// `path` with text `source`, and record it with its imports from outside
/// the project; give back its local import specifiers, for the caller to
/// resolve. When the parse fails, the graph is left as it was and the
/// message says why.
pub fn module_step(b: &mut GraphBuilder, path: &str, source: String) -> (r: Result<Vec<String>, String>)
    requires
        old(b)@.current is Some,
    ensures
        match ts_parse_of(path@, source@) {
            Err(e) => r matches Err(m) && m@ == unknown_file_message(path@, e) && final(b)@ == old(b)@,
            Ok(TsParseModel::Failed(p, es)) => r matches Err(m) && m@ == parse_failure_message(path@, p, es)
                && final(b)@ == old(b)@,
            Ok(TsParseModel::Parsed(ss)) => r matches Ok(ls) && strs_of(ls@) == local_specs(ss)
                && final(b)@ == (GraphState {
                    current: None,
                    modules: old(b)@.modules.push((old(b)@.current.unwrap(), source@)),
                    externals: old(b)@.externals + external_specs(ss),
                    ..old(b)@
                }),
        },
{
    match parse_ts_module(path, source.as_str()) {
        Err(e) => {
            let mut m = "unsupported file type ".to_string();
            m.push_str(path);
            m.push_str(": ");
            m.push_str(e.as_str());
            Err(m)
        },
        Ok(Failed(panicked, errors)) => {
            if panicked {
                let mut m = "parser panicked on file: ".to_string();
                m.push_str(path);
                Err(m)
            } else {
                let mut m = "parse errors in ".to_string();
                m.push_str(path);
                m.push_str(":\n");
                let all = join_strings(&errors, "\n");
                m.push_str(all.as_str());
                Err(m)
            }
        },
        Ok(Parsed(ss)) => {
            let collector = module_imports(&ss);
            let ImportCollector { local_specifiers, external_imports } = collector;
            b.add_module(source, external_imports);
            Ok(local_specifiers)
        },
    }
}

} // verus!
