//! Names of the WIT package, interface and world generated for a crate.
use vstd::prelude::*;
use crate::text::{str_chars, string_from_chars};
use crate::wit_common::{kebab_case, to_kebab_case};

verus! {

/// Configuration for WIT emission.
pub struct EmitConfig {
    pub namespace: String,
    pub package_name: String,
    pub version: Option<String>,
    /// The crate name from Cargo.toml, used for the interface and world names.
    pub crate_name: String,
}

/// `s` with every `-` replaced by `_`.
pub open spec fn hyphens_to_underscores(s: Seq<char>) -> Seq<char> {
    s.map_values(|c: char| if c == '-' { '_' } else { c })
}

impl EmitConfig {
    /// The interface name: the crate name in kebab case.
    pub open spec fn spec_interface_name(&self) -> Seq<char> {
        kebab_case(self.crate_name@)
    }

    /// The world name: the interface name followed by `-world`.
    pub open spec fn spec_world_name(&self) -> Seq<char> {
        self.spec_interface_name() + "-world"@
    }

    /// The WIT interface name, derived from the crate name.
    pub fn interface_name(&self) -> (s: String)
        ensures
            s@ == self.spec_interface_name(),
    {
        to_kebab_case(self.crate_name.as_str())
    }

    /// The WIT world name (`{interface_name}-world`).
    pub fn world_name(&self) -> (s: String)
        ensures
            s@ == self.spec_world_name(),
    {
        let mut s = self.interface_name();
        s.push_str("-world");
        s
    }

    /// A fully-qualified world selector: `ns:pkg/world`, with `@version` when
    /// there is one.
    pub fn world_selector(&self) -> (s: String)
        ensures
            s@ == self.namespace@ + ":"@ + self.package_name@ + "/"@ + self.spec_world_name() + match self.version {
                Some(v) => "@"@ + v@,
                None => Seq::empty(),
            },
    {
        let world_name = self.world_name();
        let mut s = String::new();
        s.push_str(self.namespace.as_str());
        s.push_str(":");
        s.push_str(self.package_name.as_str());
        s.push_str("/");
        s.push_str(world_name.as_str());
        match &self.version {
            Some(ver) => {
                s.push_str("@");
                s.push_str(ver.as_str());
            },
            None => {},
        }
        s
    }

    /// The Rust identifier for the interface (kebab replaced with `_`).
    pub fn interface_ident(&self) -> (s: String)
        ensures
            s@ == hyphens_to_underscores(self.spec_interface_name()),
    {
        let name = self.interface_name();
        let chars = str_chars(name.as_str());
        let mut out: Vec<char> = Vec::new();
        let mut i: usize = 0;
        while i < chars.len()
            invariant
                i <= chars.len(),
                out@ == hyphens_to_underscores(chars@.take(i as int)),
            decreases chars.len() - i,
        {
            let c = chars[i];
            out.push(if c == '-' { '_' } else { c });
            proof {
                assert(chars@.take(i + 1) == chars@.take(i as int).push(c));
            }
            i = i + 1;
        }
        assert(chars@.take(chars.len() as int) == chars@);
        string_from_chars(out.as_slice())
    }
}

} // verus!
