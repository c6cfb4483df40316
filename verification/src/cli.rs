//! The command-line arguments of the generators, as plain values.
use vstd::prelude::*;

verus! {

/// Arguments of the single-command generators (Rust crate or TypeScript project).
pub struct Args {
    /// Path to the output .wit file; standard output when absent.
    pub output: Option<String>,
    /// WIT package identifier (e.g. "myorg:my-pkg@1.0.0"); derived when absent.
    pub package: Option<String>,
    /// Error on unsupported or ambiguous types instead of using defaults.
    pub strict: bool,
    /// The input path; the current directory when absent.
    pub input: Option<String>,
}

/// Arguments of the crate tool with subcommands.
pub struct Cli {
    /// Enable verbose output.
    pub verbose: bool,
    pub command: Command,
}

/// The subcommands of the crate tool.
pub enum Command {
    /// Generate WIT interface definitions from a Rust crate.
    Generate(GenerateArgs),
    /// Build a wasm32-wasip2 component from a Rust crate with `#[export]` annotations.
    Build(BuildArgs),
}

/// Arguments of `generate`.
pub struct GenerateArgs {
    /// Path to the output .wit file; standard output when absent.
    pub output: Option<String>,
    /// WIT package identifier; derived from Cargo.toml when absent.
    pub package: Option<String>,
    /// Error on unsupported types instead of skipping them.
    pub strict: bool,
    /// Path to the Rust crate; the current directory when absent.
    pub input: Option<String>,
}

/// Arguments of `build`.
pub struct BuildArgs {
    /// WIT package identifier; derived from Cargo.toml when absent.
    pub package: Option<String>,
    /// Build in release mode.
    pub release: bool,
    /// Path to the Rust crate; the current directory when absent.
    pub input: Option<String>,
}

impl BuildArgs {
    /// The cargo profile the build uses.
    pub fn profile(&self) -> (p: &'static str)
        ensures
            p@ == (if self.release { "release"@ } else { "debug"@ }),
    {
        if self.release { "release" } else { "debug" }
    }
}

} // verus!
