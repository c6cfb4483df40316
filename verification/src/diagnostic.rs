//! Diagnostics for types that cannot be mapped to WIT, with fix suggestions.
use vstd::prelude::*;

verus! {

/// The kind of diagnostic.
#[derive(Debug, Clone, Copy, PartialEq, Eq, Structural)]
pub enum DiagnosticKind {
    /// A bare `number` type without a branded type annotation.
    AmbiguousNumeric,
    /// A type that has no WIT equivalent (any, unknown, function types, etc.)
    UnsupportedType,
    /// A type reference that could not be resolved.
    UnresolvableType,
}

/// A diagnostic message about a type mapping issue.
#[derive(Debug)]
pub struct Diagnostic {
    pub kind: DiagnosticKind,
    pub message: String,
    pub context: String,
}

/// The model of a diagnostic: kind, message, and context.
pub type DiagModel = (DiagnosticKind, Seq<char>, Seq<char>);

impl View for Diagnostic {
    type V = DiagModel;

    open spec fn view(&self) -> DiagModel {
        (self.kind, self.message@, self.context@)
    }
}

/// The models of a sequence of diagnostics.
pub open spec fn diags_of(s: Seq<Diagnostic>) -> Seq<DiagModel> {
    s.map_values(|d: Diagnostic| d@)
}

/// The label that starts the display of a diagnostic of this kind.
pub open spec fn kind_label(kind: DiagnosticKind) -> Seq<char> {
    match kind {
        DiagnosticKind::AmbiguousNumeric => "ambiguous type"@,
        DiagnosticKind::UnsupportedType => "unsupported type"@,
        DiagnosticKind::UnresolvableType => "unresolvable type"@,
    }
}

/// The help text for a diagnostic of this kind.
pub open spec fn help_text(kind: DiagnosticKind) -> Seq<char> {
    match kind {
        DiagnosticKind::AmbiguousNumeric => "Import a branded type from 'witgenstein-ts':\n\n  import { u32 } from 'witgenstein-ts';\n\nThen use it instead of `number`. Available types:\n  u8, u16, u32, u64, s8, s16, s32, s64, f32, f64"@,
        DiagnosticKind::UnsupportedType => "This type has no WIT equivalent. Consider refactoring to use\na supported type (record, enum, variant, resource, etc.)."@,
        DiagnosticKind::UnresolvableType => "Ensure all types used in the public API have explicit type annotations.\nAdd a type annotation or import the missing type."@,
    }
}

impl Diagnostic {
    /// The display form: `kind label: message`.
    pub fn to_string(&self) -> (s: String)
        ensures
            s@ == kind_label(self.kind) + ": "@ + self.message@,
    {
        let mut out = String::new();
        match self.kind {
            DiagnosticKind::AmbiguousNumeric => out.push_str("ambiguous type"),
            DiagnosticKind::UnsupportedType => out.push_str("unsupported type"),
            DiagnosticKind::UnresolvableType => out.push_str("unresolvable type"),
        }
        out.push_str(": ");
        out.push_str(self.message.as_str());
        out
    }

    /// Generate a help message with scaffolded fix code.
    pub fn help(&self) -> (s: String)
        ensures
            s@ == help_text(self.kind),
    {
        let mut out = String::new();
        match self.kind {
            DiagnosticKind::AmbiguousNumeric => out.push_str(
                "Import a branded type from 'witgenstein-ts':\n\n  import { u32 } from 'witgenstein-ts';\n\nThen use it instead of `number`. Available types:\n  u8, u16, u32, u64, s8, s16, s32, s64, f32, f64",
            ),
            DiagnosticKind::UnsupportedType => out.push_str(
                "This type has no WIT equivalent. Consider refactoring to use\na supported type (record, enum, variant, resource, etc.).",
            ),
            DiagnosticKind::UnresolvableType => out.push_str(
                "Ensure all types used in the public API have explicit type annotations.\nAdd a type annotation or import the missing type.",
            ),
        }
        out
    }
}

} // verus!
