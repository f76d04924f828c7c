//! The closed set of naming schemes a trace can be written in, and the
//! parsing of their short textual forms.
use vstd::prelude::*;

use crate::parsing::str_eq;

verus! {

/// The error for a string that names no known scheme.
#[derive(Debug, Clone, Copy, PartialEq, Eq, Structural)]
pub struct NamesFromStrError;

/// A naming scheme for the game's classes and methods.
#[derive(Debug, Clone, Copy, PartialEq, Eq, Structural, Hash, PartialOrd, Ord)]
pub enum NamesType {
    /// The short, meaningless identifiers shipped in game binaries.
    Obfuscated,
    /// Human-readable identifiers published by the game vendor.
    Mojang,
    /// Stable synthetic identifiers published by the Fabric toolchain.
    FabricIntermediary,
}

impl NamesType {
    /// The stable short form used on the command line and in diagnostics.
    pub open spec fn spec_short_name(self) -> Seq<char> {
        match self {
            NamesType::Obfuscated => "obf"@,
            NamesType::Mojang => "mojang"@,
            NamesType::FabricIntermediary => "fabric"@,
        }
    }

    pub fn short_name(&self) -> (r: &'static str)
        ensures
            r@ == self.spec_short_name(),
    {
        match self {
            NamesType::Obfuscated => "obf",
            NamesType::Mojang => "mojang",
            NamesType::FabricIntermediary => "fabric",
        }
    }

    /// Parse a short form; any other string is an invalid argument.
    pub fn from_str(s: &str) -> (r: Result<NamesType, NamesFromStrError>)
        ensures
            match r {
                Ok(t) => s@ == t.spec_short_name(),
                Err(_) => s@ != "obf"@ && s@ != "mojang"@ && s@ != "fabric"@,
            },
    {
        if str_eq(s, "obf") {
            Ok(NamesType::Obfuscated)
        } else if str_eq(s, "mojang") {
            Ok(NamesType::Mojang)
        } else if str_eq(s, "fabric") {
            Ok(NamesType::FabricIntermediary)
        } else {
            Err(NamesFromStrError)
        }
    }
}

} // verus!
