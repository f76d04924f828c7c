//! The vendor mapping source: the deobfuscation file arrives as proguard
//! text, is parsed, and is normalized into a base mapper for the requested
//! direction.  Fetching the text over the network happens outside the crate.
use vstd::prelude::*;

use crate::mappings::proguard::{parse_proguard, spec_proguard, PGClass, PGMethod};
use crate::mappings::raw::{
    convert_mappings, convert_model, raw_classes_view, spec_flip, RawClassMapping,
    RawMethodMapping,
};
use crate::mappings::BaseMapper;
use crate::names::NamesType;
use crate::parsing::{push_str_chars, string_of};
use crate::{ErrorKind, SPError};

verus! {

/// Build the vendor mapping edge from the proguard text of one version.
///
/// With `moj_to_obf` the mapper translates vendor names into obfuscated
/// names; otherwise the direction is flipped at normalization, since the
/// file itself is written vendor-first.  Text that is not a proguard file is
/// a format failure carrying the parse diagnostics.
/// The context line of text that is not a proguard file.
pub open spec fn proguard_parse_error_line(version: Seq<char>) -> Seq<char> {
    "failed to parse proguard mappings for "@ + version
}

pub fn load(version: String, moj_to_obf: bool, content: &str) -> (r: Result<BaseMapper, SPError>)
    ensures
        match r {
            Ok(b) => spec_proguard(content@) is Some && {
                let names = spec_flip(!moj_to_obf, (NamesType::Mojang, NamesType::Obfuscated));
                &&& b@.from == names.0
                &&& b@.to == names.1
                &&& b@.version == version@
                &&& b@.classes == convert_model(spec_proguard(content@)->Some_0, !moj_to_obf)
            },
            Err(e) => {
                &&& spec_proguard(content@) is None
                &&& e.kind == ErrorKind::FormatFailure
                &&& e.parse_errors is Some
                &&& e.context@.len() == 1
                &&& e.context@[0]@ == proguard_parse_error_line(version@)
            },
        },
{
    let pg = match parse_proguard(content) {
        Ok(pg) => pg,
        Err(pe) => {
            let mut line: Vec<char> = Vec::new();
            push_str_chars("failed to parse proguard mappings for ", &mut line);
            push_str_chars(version.as_str(), &mut line);
            proof {
                assert(line@ =~= proguard_parse_error_line(version@));
            }
            let mut e = SPError::from_parse_errors(ErrorKind::FormatFailure, pe);
            e.attach(string_of(&line));
            return Err(e);
        },
    };
    let ghost pgv = pg@;
    let mut rest = pg.classes;
    let ghost orig = rest@;
    let mut raws: Vec<RawClassMapping> = Vec::new();
    while rest.len() > 0
        invariant
            pgv == crate::mappings::proguard::pg_classes_view(orig),
            raws@.len() + rest@.len() == orig.len(),
            forall|k: int| 0 <= k < rest@.len() ==> rest@[k] == orig[raws@.len() + k],
            forall|k: int| 0 <= k < raws@.len() ==> raws@[k]@ == pgv[k],
        decreases rest@.len(),
    {
        let ghost done = raws@.len() as int;
        let c = rest.remove(0);
        proof {
            assert(pgv[done] == orig[done]@);
        }
        let mut ms: Vec<RawMethodMapping> = Vec::new();
        let mut mrest = c.methods;
        let ghost cm = c@;
        while mrest.len() > 0
            invariant
                cm.methods.len() == ms@.len() + mrest@.len(),
                forall|k: int| 0 <= k < mrest@.len() ==> mrest@[k]@ == cm.methods[ms@.len() + k],
                forall|k: int| 0 <= k < ms@.len() ==> ms@[k]@ == cm.methods[k],
            decreases mrest@.len(),
        {
            let m = mrest.remove(0);
            ms.push(
                RawMethodMapping {
                    descriptor: m.primary_descriptor,
                    mapping: (m.mapping.primary_name, m.mapping.secondary_name),
                },
            );
        }
        let rc = RawClassMapping {
            mapping: (c.mapping.primary_name, c.mapping.secondary_name),
            methods: ms,
        };
        proof {
            assert(rc@.methods =~= cm.methods);
            assert(rc@ =~= cm);
        }
        raws.push(rc);
    }
    proof {
        assert(raw_classes_view(raws@) =~= pgv);
    }
    Ok(convert_mappings(NamesType::Mojang, NamesType::Obfuscated, version, raws, !moj_to_obf))
}

} // verus!
