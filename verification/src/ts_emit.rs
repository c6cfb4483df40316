//! The WIT emitter: formats the WIT IR as `.wit` text.
use vstd::prelude::*;
use crate::text::string_from_chars;
use crate::ts_types::{
    cases_of, funcs_of, interfaces_of, named_tys, opt_wit, strs_of, ty_text, type_defs_of,
    AliasModel, CaseModel, EnumModel, FlagsModel, FuncModel, InterfaceModel, NamedTy,
    PackageModel, RecordModel, ResourceModel, TypeDefModel, VariantModel, WitEnum, WitFlags,
    WitFunc, WitPackage, WitRecord, WitResource, WitTy, WitType, WitTypeAlias, WitTypeDef,
    WitVariant, WitWorld, WorldModel, WitInterface,
};

verus! {

/// `name: type` pairs separated by `, `.
pub open spec fn params_text(ps: Seq<NamedTy>) -> Seq<char>
    decreases ps.len(),
{
    if ps.len() == 0 {
        Seq::empty()
    } else if ps.len() == 1 {
        ps[0].0 + ": "@ + ty_text(ps[0].1)
    } else {
        params_text(ps.drop_last()) + ", "@ + ps.last().0 + ": "@ + ty_text(ps.last().1)
    }
}

/// ` -> type` for a function with a result, nothing otherwise.
pub open spec fn result_text(r: Option<WitTy>) -> Seq<char> {
    match r {
        Some(t) => " -> "@ + ty_text(t),
        None => Seq::empty(),
    }
}

/// A function declaration line after `prefix`.
pub open spec fn func_text(f: FuncModel, prefix: Seq<char>) -> Seq<char> {
    prefix + f.name + ": "@ + (if f.is_async { "async "@ } else { Seq::empty() }) + "func("@
        + params_text(f.params) + ")"@ + result_text(f.result) + ";\n"@
}

/// A static function declaration line (without indentation).
pub open spec fn static_func_text(f: FuncModel) -> Seq<char> {
    f.name + ": static func("@ + params_text(f.params) + ")"@ + result_text(f.result) + ";\n"@
}

/// Function declaration lines, each after `prefix`.
pub open spec fn funcs_text(fs: Seq<FuncModel>, prefix: Seq<char>) -> Seq<char>
    decreases fs.len(),
{
    if fs.len() == 0 {
        Seq::empty()
    } else {
        funcs_text(fs.drop_last(), prefix) + func_text(fs.last(), prefix)
    }
}

/// Static function lines, each after `indent` and two spaces.
pub open spec fn static_funcs_text(fs: Seq<FuncModel>, indent: Seq<char>) -> Seq<char>
    decreases fs.len(),
{
    if fs.len() == 0 {
        Seq::empty()
    } else {
        static_funcs_text(fs.drop_last(), indent) + indent + "  "@ + static_func_text(fs.last())
    }
}

/// `indent  name: type,` lines.
pub open spec fn fields_text(fs: Seq<NamedTy>, indent: Seq<char>) -> Seq<char>
    decreases fs.len(),
{
    if fs.len() == 0 {
        Seq::empty()
    } else {
        fields_text(fs.drop_last(), indent) + indent + "  "@ + fs.last().0 + ": "@ + ty_text(
            fs.last().1,
        ) + ",\n"@
    }
}

/// `indent  name,` lines.
pub open spec fn names_text(ns: Seq<Seq<char>>, indent: Seq<char>) -> Seq<char>
    decreases ns.len(),
{
    if ns.len() == 0 {
        Seq::empty()
    } else {
        names_text(ns.drop_last(), indent) + indent + "  "@ + ns.last() + ",\n"@
    }
}

/// `indent  name(type),` or `indent  name,` lines.
pub open spec fn cases_text(cs: Seq<CaseModel>, indent: Seq<char>) -> Seq<char>
    decreases cs.len(),
{
    if cs.len() == 0 {
        Seq::empty()
    } else {
        cases_text(cs.drop_last(), indent) + indent + "  "@ + cs.last().0 + match cs.last().1 {
            Some(t) => "("@ + ty_text(t) + ")"@,
            None => Seq::empty(),
        } + ",\n"@
    }
}

/// A record definition.
pub open spec fn record_text(r: RecordModel, indent: Seq<char>) -> Seq<char> {
    indent + "record "@ + r.name + " {\n"@ + fields_text(r.fields, indent) + indent + "}\n"@
}

/// A resource definition.
pub open spec fn resource_text(r: ResourceModel, indent: Seq<char>) -> Seq<char> {
    indent + "resource "@ + r.name + " {\n"@ + match r.constructor_params {
        Some(ps) => indent + "  constructor("@ + params_text(ps) + ");\n"@,
        None => Seq::empty(),
    } + funcs_text(r.methods, indent + "  "@) + static_funcs_text(r.static_funcs, indent) + indent
        + "}\n"@
}

/// An enum definition.
pub open spec fn enum_text(e: EnumModel, indent: Seq<char>) -> Seq<char> {
    indent + "enum "@ + e.name + " {\n"@ + names_text(e.cases, indent) + indent + "}\n"@
}

/// A variant definition.
pub open spec fn variant_text(v: VariantModel, indent: Seq<char>) -> Seq<char> {
    indent + "variant "@ + v.name + " {\n"@ + cases_text(v.cases, indent) + indent + "}\n"@
}

/// A flags definition.
pub open spec fn flags_text(f: FlagsModel, indent: Seq<char>) -> Seq<char> {
    indent + "flags "@ + f.name + " {\n"@ + names_text(f.flags, indent) + indent + "}\n"@
}

/// A type alias definition.
pub open spec fn alias_text(a: AliasModel, indent: Seq<char>) -> Seq<char> {
    indent + "type "@ + a.name + " = "@ + ty_text(a.target) + ";\n"@
}

/// Any type definition.
pub open spec fn type_def_text(d: TypeDefModel, indent: Seq<char>) -> Seq<char> {
    match d {
        TypeDefModel::Record(r) => record_text(r, indent),
        TypeDefModel::Resource(r) => resource_text(r, indent),
        TypeDefModel::Enum(e) => enum_text(e, indent),
        TypeDefModel::Variant(v) => variant_text(v, indent),
        TypeDefModel::Flags(f) => flags_text(f, indent),
        TypeDefModel::TypeAlias(a) => alias_text(a, indent),
    }
}

/// Type definitions indented by two spaces, separated by blank lines.
pub open spec fn type_defs_text(ds: Seq<TypeDefModel>) -> Seq<char>
    decreases ds.len(),
{
    if ds.len() == 0 {
        Seq::empty()
    } else if ds.len() == 1 {
        type_def_text(ds[0], "  "@)
    } else {
        type_defs_text(ds.drop_last()) + "\n"@ + type_def_text(ds.last(), "  "@)
    }
}

/// The body of an interface: type definitions, a blank line, and functions.
pub open spec fn interface_body_text(ds: Seq<TypeDefModel>, fs: Seq<FuncModel>) -> Seq<char> {
    type_defs_text(ds) + (if ds.len() > 0 && fs.len() > 0 { "\n"@ } else { Seq::empty() })
        + funcs_text(fs, "  "@)
}

/// An `interface name { ... }` block followed by a blank line.
pub open spec fn interface_block_text(name: Seq<char>, ds: Seq<TypeDefModel>, fs: Seq<FuncModel>) -> Seq<char> {
    "interface "@ + name + " {\n"@ + interface_body_text(ds, fs) + "}\n\n"@
}

/// The blocks of the imported interfaces.
pub open spec fn import_blocks_text(is: Seq<InterfaceModel>) -> Seq<char>
    decreases is.len(),
{
    if is.len() == 0 {
        Seq::empty()
    } else {
        import_blocks_text(is.drop_last()) + interface_block_text(
            is.last().name,
            is.last().type_defs,
            is.last().functions,
        )
    }
}

/// `  import name;` lines.
pub open spec fn import_lines_text(is: Seq<InterfaceModel>) -> Seq<char>
    decreases is.len(),
{
    if is.len() == 0 {
        Seq::empty()
    } else {
        import_lines_text(is.drop_last()) + "  import "@ + is.last().name + ";\n"@
    }
}

/// The world text: imported interfaces, the exported types interface when it
/// has types, then the world, which imports those interfaces, exports the types
/// interface, and exports the functions directly.
pub open spec fn world_text(w: WorldModel) -> Seq<char> {
    import_blocks_text(w.imports) + export_types_block_text(w.exports) + "world "@ + w.name + " {\n"@
        + import_lines_text(w.imports) + export_types_line_text(w.exports) + funcs_text(
        w.exports.functions,
        "  export "@,
    ) + "}\n"@
}

/// The interface that holds the exported types, when there are any.
pub open spec fn export_types_block_text(e: InterfaceModel) -> Seq<char> {
    if e.type_defs.len() > 0 {
        interface_block_text(e.name, e.type_defs, Seq::empty())
    } else {
        Seq::empty()
    }
}

/// The world's export of the types interface, when there are exported types.
pub open spec fn export_types_line_text(e: InterfaceModel) -> Seq<char> {
    if e.type_defs.len() > 0 {
        "  export "@ + e.name + ";\n"@
    } else {
        Seq::empty()
    }
}

/// The `package ns:name[@version];` line.
pub open spec fn package_header_text(p: PackageModel) -> Seq<char> {
    "package "@ + p.namespace + ":"@ + p.name + match p.version {
        Some(v) => "@"@ + v,
        None => Seq::empty(),
    } + ";\n"@
}

/// The complete `.wit` text of a package.
pub open spec fn package_text(p: PackageModel) -> Seq<char> {
    package_header_text(p) + "\n"@ + world_text(p.world)
}

} // verus!

verus! {

/// Appends `name: type` pairs separated by `, `.
pub fn emit_param_list(out: &mut String, params: &[(String, WitType)])
    ensures
        final(out)@ == old(out)@ + params_text(named_tys(params@)),
{
    let ghost start = out@;
    let ghost ps = named_tys(params@);
    let mut i: usize = 0;
    while i < params.len()
        invariant
            i <= params.len(),
            ps == named_tys(params@),
            out@ == start + params_text(ps.take(i as int)),
        decreases params.len() - i,
    {
        proof {
            assert(ps.take(i + 1).drop_last() == ps.take(i as int));
            assert(ps.take(i + 1).last() == ps[i as int]);
        }
        if i > 0 {
            out.push_str(", ");
        }
        out.push_str(params[i].0.as_str());
        out.push_str(": ");
        let ty = params[i].1.to_string();
        out.push_str(ty.as_str());
        i = i + 1;
    }
    assert(ps.take(params.len() as int) == ps);
}

fn emit_result(out: &mut String, result: &Option<WitType>)
    ensures
        final(out)@ == old(out)@ + result_text(opt_wit(*result)),
{
    match result {
        Some(t) => {
            out.push_str(" -> ");
            let ty = t.to_string();
            out.push_str(ty.as_str());
        },
        None => {},
    }
}

/// Appends a function declaration line after `prefix`.
pub fn emit_func(out: &mut String, func: &WitFunc, prefix: &str)
    ensures
        final(out)@ == old(out)@ + func_text(func@, prefix@),
{
    out.push_str(prefix);
    out.push_str(func.name.as_str());
    out.push_str(": ");
    if func.is_async {
        out.push_str("async ");
    }
    out.push_str("func(");
    emit_param_list(out, func.params.as_slice());
    out.push(')');
    emit_result(out, &func.result);
    out.push_str(";\n");
    proof {
        assert(")"@ == seq![')']) by {
            reveal_strlit(")");
        }
    }
}

/// Appends a static function declaration line.
pub fn emit_static_func(out: &mut String, func: &WitFunc)
    ensures
        final(out)@ == old(out)@ + static_func_text(func@),
{
    out.push_str(func.name.as_str());
    out.push_str(": static func(");
    emit_param_list(out, func.params.as_slice());
    out.push(')');
    emit_result(out, &func.result);
    out.push_str(";\n");
    proof {
        assert(")"@ == seq![')']) by {
            reveal_strlit(")");
        }
    }
}

fn emit_funcs(out: &mut String, funcs: &[WitFunc], prefix: &str)
    ensures
        final(out)@ == old(out)@ + funcs_text(funcs_of(funcs@), prefix@),
{
    let ghost start = out@;
    let ghost fs = funcs_of(funcs@);
    let mut i: usize = 0;
    while i < funcs.len()
        invariant
            i <= funcs.len(),
            fs == funcs_of(funcs@),
            out@ == start + funcs_text(fs.take(i as int), prefix@),
        decreases funcs.len() - i,
    {
        proof {
            assert(fs.take(i + 1).drop_last() == fs.take(i as int));
            assert(fs.take(i + 1).last() == fs[i as int]);
        }
        emit_func(out, &funcs[i], prefix);
        i = i + 1;
    }
    assert(fs.take(funcs.len() as int) == fs);
}

/// Appends a record definition.
pub fn emit_record(out: &mut String, record: &WitRecord, indent: &str)
    ensures
        final(out)@ == old(out)@ + record_text(record@, indent@),
{
    out.push_str(indent);
    out.push_str("record ");
    out.push_str(record.name.as_str());
    out.push_str(" {\n");
    let ghost mid = out@;
    let ghost fs = named_tys(record.fields@);
    let mut i: usize = 0;
    while i < record.fields.len()
        invariant
            i <= record.fields.len(),
            fs == named_tys(record.fields@),
            out@ == mid + fields_text(fs.take(i as int), indent@),
        decreases record.fields.len() - i,
    {
        proof {
            assert(fs.take(i + 1).drop_last() == fs.take(i as int));
            assert(fs.take(i + 1).last() == fs[i as int]);
        }
        out.push_str(indent);
        out.push_str("  ");
        out.push_str(record.fields[i].0.as_str());
        out.push_str(": ");
        let ty = record.fields[i].1.to_string();
        out.push_str(ty.as_str());
        out.push_str(",\n");
        i = i + 1;
    }
    assert(fs.take(record.fields.len() as int) == fs);
    out.push_str(indent);
    out.push_str("}\n");
}

fn emit_names(out: &mut String, names: &Vec<String>, indent: &str)
    ensures
        final(out)@ == old(out)@ + names_text(strs_of(names@), indent@),
{
    let ghost start = out@;
    let ghost ns = strs_of(names@);
    let mut i: usize = 0;
    while i < names.len()
        invariant
            i <= names.len(),
            ns == strs_of(names@),
            out@ == start + names_text(ns.take(i as int), indent@),
        decreases names.len() - i,
    {
        proof {
            assert(ns.take(i + 1).drop_last() == ns.take(i as int));
            assert(ns.take(i + 1).last() == ns[i as int]);
        }
        out.push_str(indent);
        out.push_str("  ");
        out.push_str(names[i].as_str());
        out.push_str(",\n");
        i = i + 1;
    }
    assert(ns.take(names.len() as int) == ns);
}

/// Appends an enum definition.
pub fn emit_enum(out: &mut String, e: &WitEnum, indent: &str)
    ensures
        final(out)@ == old(out)@ + enum_text(e@, indent@),
{
    out.push_str(indent);
    out.push_str("enum ");
    out.push_str(e.name.as_str());
    out.push_str(" {\n");
    emit_names(out, &e.cases, indent);
    out.push_str(indent);
    out.push_str("}\n");
}

/// Appends a flags definition.
pub fn emit_flags(out: &mut String, f: &WitFlags, indent: &str)
    ensures
        final(out)@ == old(out)@ + flags_text(f@, indent@),
{
    out.push_str(indent);
    out.push_str("flags ");
    out.push_str(f.name.as_str());
    out.push_str(" {\n");
    emit_names(out, &f.flags, indent);
    out.push_str(indent);
    out.push_str("}\n");
}

/// Appends a variant definition.
pub fn emit_variant(out: &mut String, v: &WitVariant, indent: &str)
    ensures
        final(out)@ == old(out)@ + variant_text(v@, indent@),
{
    out.push_str(indent);
    out.push_str("variant ");
    out.push_str(v.name.as_str());
    out.push_str(" {\n");
    let ghost mid = out@;
    let ghost cs = cases_of(v.cases@);
    let mut i: usize = 0;
    while i < v.cases.len()
        invariant
            i <= v.cases.len(),
            cs == cases_of(v.cases@),
            out@ == mid + cases_text(cs.take(i as int), indent@),
        decreases v.cases.len() - i,
    {
        proof {
            assert(cs.take(i + 1).drop_last() == cs.take(i as int));
            assert(cs.take(i + 1).last() == cs[i as int]);
        }
        out.push_str(indent);
        out.push_str("  ");
        out.push_str(v.cases[i].0.as_str());
        match &v.cases[i].1 {
            Some(ty) => {
                out.push_str("(");
                let t = ty.to_string();
                out.push_str(t.as_str());
                out.push_str(")");
            },
            None => {},
        }
        out.push_str(",\n");
        i = i + 1;
    }
    assert(cs.take(v.cases.len() as int) == cs);
    out.push_str(indent);
    out.push_str("}\n");
}

/// Appends a type alias definition.
pub fn emit_type_alias(out: &mut String, a: &WitTypeAlias, indent: &str)
    ensures
        final(out)@ == old(out)@ + alias_text(a@, indent@),
{
    out.push_str(indent);
    out.push_str("type ");
    out.push_str(a.name.as_str());
    out.push_str(" = ");
    let t = a.target.to_string();
    out.push_str(t.as_str());
    out.push_str(";\n");
}

fn emit_static_funcs(out: &mut String, funcs: &[WitFunc], indent: &str)
    ensures
        final(out)@ == old(out)@ + static_funcs_text(funcs_of(funcs@), indent@),
{
    let ghost start = out@;
    let ghost fs = funcs_of(funcs@);
    let mut i: usize = 0;
    while i < funcs.len()
        invariant
            i <= funcs.len(),
            fs == funcs_of(funcs@),
            out@ == start + static_funcs_text(fs.take(i as int), indent@),
        decreases funcs.len() - i,
    {
        proof {
            assert(fs.take(i + 1).drop_last() == fs.take(i as int));
            assert(fs.take(i + 1).last() == fs[i as int]);
        }
        out.push_str(indent);
        out.push_str("  ");
        emit_static_func(out, &funcs[i]);
        i = i + 1;
    }
    assert(fs.take(funcs.len() as int) == fs);
}

/// Appends a resource definition.
pub fn emit_resource(out: &mut String, resource: &WitResource, indent: &str)
    ensures
        final(out)@ == old(out)@ + resource_text(resource@, indent@),
{
    out.push_str(indent);
    out.push_str("resource ");
    out.push_str(resource.name.as_str());
    out.push_str(" {\n");
    match &resource.constructor_params {
        Some(params) => {
            out.push_str(indent);
            out.push_str("  constructor(");
            emit_param_list(out, params.as_slice());
            out.push_str(");\n");
        },
        None => {},
    }
    let mut inner = String::new();
    inner.push_str(indent);
    inner.push_str("  ");
    emit_funcs(out, resource.methods.as_slice(), inner.as_str());
    emit_static_funcs(out, resource.static_funcs.as_slice(), indent);
    out.push_str(indent);
    out.push_str("}\n");
}

/// Appends any type definition.
pub fn emit_type_def(out: &mut String, type_def: &WitTypeDef, indent: &str)
    ensures
        final(out)@ == old(out)@ + type_def_text(type_def@, indent@),
{
    match type_def {
        WitTypeDef::Record(record) => emit_record(out, record, indent),
        WitTypeDef::Resource(resource) => emit_resource(out, resource, indent),
        WitTypeDef::Enum(e) => emit_enum(out, e, indent),
        WitTypeDef::Variant(v) => emit_variant(out, v, indent),
        WitTypeDef::Flags(f) => emit_flags(out, f, indent),
        WitTypeDef::TypeAlias(a) => emit_type_alias(out, a, indent),
    }
}

/// Appends an interface body: type definitions separated by blank lines, a
/// blank line when there are both definitions and functions, then functions.
pub fn emit_interface_body(out: &mut String, type_defs: &[WitTypeDef], functions: &[WitFunc])
    ensures
        final(out)@ == old(out)@ + interface_body_text(type_defs_of(type_defs@), funcs_of(functions@)),
{
    let ghost start = out@;
    let ghost ds = type_defs_of(type_defs@);
    let mut i: usize = 0;
    while i < type_defs.len()
        invariant
            i <= type_defs.len(),
            ds == type_defs_of(type_defs@),
            out@ == start + type_defs_text(ds.take(i as int)),
        decreases type_defs.len() - i,
    {
        proof {
            assert(ds.take(i + 1).drop_last() == ds.take(i as int));
            assert(ds.take(i + 1).last() == ds[i as int]);
        }
        if i > 0 {
            out.push('\n');
        }
        emit_type_def(out, &type_defs[i], "  ");
        proof {
            assert("\n"@ == seq!['\n']) by {
                reveal_strlit("\n");
            }
        }
        i = i + 1;
    }
    assert(ds.take(type_defs.len() as int) == ds);
    if type_defs.len() > 0 && functions.len() > 0 {
        out.push('\n');
        proof {
            assert("\n"@ == seq!['\n']) by {
                reveal_strlit("\n");
            }
        }
    }
    emit_funcs(out, functions, "  ");
}

/// Appends the `package ns:name[@version];` line.
pub fn emit_package_header(out: &mut String, package: &WitPackage)
    ensures
        final(out)@ == old(out)@ + package_header_text(package@),
{
    out.push_str("package ");
    out.push_str(package.namespace.as_str());
    out.push_str(":");
    out.push_str(package.name.as_str());
    match &package.version {
        Some(version) => {
            out.push_str("@");
            out.push_str(version.as_str());
        },
        None => {},
    }
    out.push_str(";\n");
}

fn emit_import_blocks(out: &mut String, imports: &Vec<WitInterface>)
    ensures
        final(out)@ == old(out)@ + import_blocks_text(interfaces_of(imports@)),
{
    let ghost start = out@;
    let ghost is = interfaces_of(imports@);
    let mut i: usize = 0;
    while i < imports.len()
        invariant
            i <= imports.len(),
            is == interfaces_of(imports@),
            out@ == start + import_blocks_text(is.take(i as int)),
        decreases imports.len() - i,
    {
        proof {
            assert(is.take(i + 1).drop_last() == is.take(i as int));
            assert(is.take(i + 1).last() == is[i as int]);
        }
        let import = &imports[i];
        out.push_str("interface ");
        out.push_str(import.name.as_str());
        out.push_str(" {\n");
        emit_interface_body(out, import.type_defs.as_slice(), import.functions.as_slice());
        out.push_str("}\n\n");
        i = i + 1;
    }
    assert(is.take(imports.len() as int) == is);
}

fn emit_import_lines(out: &mut String, imports: &Vec<WitInterface>)
    ensures
        final(out)@ == old(out)@ + import_lines_text(interfaces_of(imports@)),
{
    let ghost start = out@;
    let ghost is = interfaces_of(imports@);
    let mut j: usize = 0;
    while j < imports.len()
        invariant
            j <= imports.len(),
            is == interfaces_of(imports@),
            out@ == start + import_lines_text(is.take(j as int)),
        decreases imports.len() - j,
    {
        proof {
            assert(is.take(j + 1).drop_last() == is.take(j as int));
            assert(is.take(j + 1).last() == is[j as int]);
        }
        out.push_str("  import ");
        out.push_str(imports[j].name.as_str());
        out.push_str(";\n");
        j = j + 1;
    }
    assert(is.take(imports.len() as int) == is);
}

fn emit_export_types_block(out: &mut String, exports: &WitInterface)
    ensures
        final(out)@ == old(out)@ + export_types_block_text(exports@),
{
    if exports.type_defs.len() > 0 {
        out.push_str("interface ");
        out.push_str(exports.name.as_str());
        out.push_str(" {\n");
        let no_funcs: Vec<WitFunc> = Vec::new();
        proof {
            assert(funcs_of(no_funcs@) == Seq::<FuncModel>::empty());
        }
        emit_interface_body(out, exports.type_defs.as_slice(), no_funcs.as_slice());
        out.push_str("}\n\n");
    }
}

fn emit_export_types_line(out: &mut String, exports: &WitInterface)
    ensures
        final(out)@ == old(out)@ + export_types_line_text(exports@),
{
    if exports.type_defs.len() > 0 {
        out.push_str("  export ");
        out.push_str(exports.name.as_str());
        out.push_str(";\n");
    }
}

/// Appends the world and the interfaces it refers to.
pub fn emit_world(out: &mut String, world: &WitWorld)
    ensures
        final(out)@ == old(out)@ + world_text(world@),
{
    emit_import_blocks(out, &world.imports);
    emit_export_types_block(out, &world.exports);
    out.push_str("world ");
    out.push_str(world.name.as_str());
    out.push_str(" {\n");
    emit_import_lines(out, &world.imports);
    emit_export_types_line(out, &world.exports);
    emit_funcs(out, world.exports.functions.as_slice(), "  export ");
    out.push_str("}\n");
}

/// Emit a complete WIT package to a string.
pub fn emit_wit(package: &WitPackage) -> (s: String)
    ensures
        s@ == package_text(package@),
{
    let mut out = String::new();
    emit_package_header(&mut out, package);
    out.push('\n');
    emit_world(&mut out, &package.world);
    proof {
        assert("\n"@ == seq!['\n']) by {
            reveal_strlit("\n");
        }
    }
    out
}

} // verus!
