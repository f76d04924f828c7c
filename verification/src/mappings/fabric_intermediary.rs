//! The Fabric mapping source: the intermediary artifact arrives as a jar
//! whose `mappings/mappings.tiny` entry is a tiny-v2 file written in the
//! `official` and `intermediary` namespaces.  Fetching the jar and its
//! digest happens outside the crate.
use vstd::prelude::*;

use crate::mappings::cache::{HashCode, MappingDownload};
use crate::mappings::raw::{
    convert_mappings, convert_model, raw_classes_view, spec_flip, RawClassMapping, RawClassV,
    RawMethodMapping, RawMethodV,
};
use crate::mappings::tiny::{parse_tiny_v2, spec_tiny_v2, TinyClassV, TinyMethodV};
use crate::mappings::BaseMapper;
use crate::names::NamesType;
use crate::parsing::{push_str_chars, str_eq, string_of};
use crate::{ErrorKind, SPError};

verus! {

/// Names the text of one entry of a ZIP archive: a function of the archive
/// bytes and the entry name alone; absent when the archive cannot be read,
/// the entry is missing, or its bytes are not text.
pub uninterp spec fn zip_text_of(archive: Seq<u8>, name: Seq<char>) -> Option<Seq<char>>;

/// Relies on the `zip` crate's `ZipArchive::new` and `by_name`, and on
/// `Read::read_to_string`: the decompressed text of the named entry.
#[verifier::external_body]
fn zip_entry_text(archive: &Vec<u8>, name: &str) -> (r: Option<String>)
    ensures
        match r {
            Some(t) => zip_text_of(archive@, name@) == Some(t@),
            None => zip_text_of(archive@, name@) is None,
        },
{
    let cursor = std::io::Cursor::new(archive.clone());
    let mut archive = zip::ZipArchive::new(cursor).ok()?;
    let mut entry = archive.by_name(name).ok()?;
    let mut text = String::new();
    std::io::Read::read_to_string(&mut entry, &mut text).ok()?;
    Some(text)
}

/// The method entries kept by the loader: those whose first mapped cell is
/// present, each becoming a (primary, first-mapped) name pair.
pub open spec fn fabric_methods(ms: Seq<TinyMethodV>) -> Seq<RawMethodV>
    decreases ms.len(),
{
    if ms.len() == 0 {
        Seq::empty()
    } else {
        let rest = fabric_methods(ms.drop_last());
        let m = ms[ms.len() - 1];
        if m.mapping.mapped_names.len() >= 1 && m.mapping.mapped_names[0] is Some {
            rest + seq![
                RawMethodV {
                    descriptor: m.primary_desc,
                    mapping: (m.mapping.primary_name, m.mapping.mapped_names[0]->Some_0),
                },
            ]
        } else {
            rest
        }
    }
}

/// The class sections kept by the loader: those whose first mapped cell is
/// present.
pub open spec fn fabric_raws(cs: Seq<TinyClassV>) -> Seq<RawClassV>
    decreases cs.len(),
{
    if cs.len() == 0 {
        Seq::empty()
    } else {
        let rest = fabric_raws(cs.drop_last());
        let c = cs[cs.len() - 1];
        if c.mapping.mapped_names.len() >= 1 && c.mapping.mapped_names[0] is Some {
            rest + seq![
                RawClassV {
                    mapping: (c.mapping.primary_name, c.mapping.mapped_names[0]->Some_0),
                    methods: fabric_methods(c.methods),
                },
            ]
        } else {
            rest
        }
    }
}

/// The entry of the intermediary jar that holds the mappings.
pub open spec fn spec_tiny_entry_name() -> Seq<char> {
    "mappings/mappings.tiny"@
}

/// The context line of a jar whose mappings entry cannot be read.
pub open spec fn entry_error_line(version: Seq<char>) -> Seq<char> {
    "failed to read mappings/mappings.tiny from the intermediary jar for "@ + version
}

/// The context line of an entry that is not a tiny-v2 file.
pub open spec fn tiny_parse_error_line(version: Seq<char>) -> Seq<char> {
    "failed to parse tiny v2 mappings for "@ + version
}

/// The context line of a tiny file written in the wrong namespaces, naming
/// the version and the offending header.
pub open spec fn namespace_error_line(version: Seq<char>, a: Seq<char>, b: Seq<char>) -> Seq<
    char,
> {
    "tiny mappings for "@ + version + " are in namespaces "@ + a + seq!['/'] + b
        + ", expected official/intermediary"@
}

/// Build the Fabric mapping edge from the intermediary jar of one version.
///
/// With `obf_to_fabric` the mapper translates obfuscated names into
/// intermediary names; otherwise the direction is flipped at normalization.
/// A jar without a readable `mappings/mappings.tiny` entry is an I/O
/// failure; text that is not tiny-v2, or a file in namespaces other than
/// `official`/`intermediary`, is a format failure.
pub fn load(version: String, obf_to_fabric: bool, jar: &Vec<u8>) -> (r: Result<BaseMapper, SPError>)
    ensures
        match r {
            Ok(b) => zip_text_of(jar@, spec_tiny_entry_name()) is Some && {
                let content = zip_text_of(jar@, spec_tiny_entry_name())->Some_0;
                &&& spec_tiny_v2(content) is Some
                &&& {
                    let tm = spec_tiny_v2(content)->Some_0;
                    let names = spec_flip(
                        !obf_to_fabric,
                        (NamesType::Obfuscated, NamesType::FabricIntermediary),
                    );
                    &&& tm.header.namespace_a == "official"@
                    &&& tm.header.namespace_b == "intermediary"@
                    &&& b@.from == names.0
                    &&& b@.to == names.1
                    &&& b@.version == version@
                    &&& b@.classes == convert_model(fabric_raws(tm.classes), !obf_to_fabric)
                }
            },
            Err(e) => {
                &&& !({
                    &&& zip_text_of(jar@, spec_tiny_entry_name()) is Some
                    &&& spec_tiny_v2(zip_text_of(jar@, spec_tiny_entry_name())->Some_0) is Some
                    &&& spec_tiny_v2(
                        zip_text_of(jar@, spec_tiny_entry_name())->Some_0,
                    )->Some_0.header.namespace_a == "official"@
                    &&& spec_tiny_v2(
                        zip_text_of(jar@, spec_tiny_entry_name())->Some_0,
                    )->Some_0.header.namespace_b == "intermediary"@
                })
                &&& e.context@.len() == 1
                &&& (zip_text_of(jar@, spec_tiny_entry_name()) is None ==> e.kind
                    == ErrorKind::IoFailure && e.context@[0]@ == entry_error_line(version@))
                &&& (zip_text_of(jar@, spec_tiny_entry_name()) is Some ==> e.kind
                    == ErrorKind::FormatFailure)
                &&& ({
                    &&& zip_text_of(jar@, spec_tiny_entry_name()) is Some
                    &&& spec_tiny_v2(zip_text_of(jar@, spec_tiny_entry_name())->Some_0) is None
                } ==> e.parse_errors is Some && e.context@[0]@ == tiny_parse_error_line(version@))
                &&& ({
                    &&& zip_text_of(jar@, spec_tiny_entry_name()) is Some
                    &&& spec_tiny_v2(zip_text_of(jar@, spec_tiny_entry_name())->Some_0) is Some
                } ==> {
                    let tm = spec_tiny_v2(zip_text_of(jar@, spec_tiny_entry_name())->Some_0)->Some_0;
                    e.context@[0]@ == namespace_error_line(
                        version@,
                        tm.header.namespace_a,
                        tm.header.namespace_b,
                    )
                })
            },
        },
{
    let content = match zip_entry_text(jar, "mappings/mappings.tiny") {
        Some(t) => t,
        None => {
            let mut line: Vec<char> = Vec::new();
            push_str_chars(
                "failed to read mappings/mappings.tiny from the intermediary jar for ",
                &mut line,
            );
            push_str_chars(version.as_str(), &mut line);
            proof {
                assert(line@ =~= entry_error_line(version@));
            }
            let mut e = SPError::new(ErrorKind::IoFailure);
            e.attach(string_of(&line));
            return Err(e);
        },
    };
    let tiny = match parse_tiny_v2(content.as_str()) {
        Ok(tm) => tm,
        Err(pe) => {
            let mut line: Vec<char> = Vec::new();
            push_str_chars("failed to parse tiny v2 mappings for ", &mut line);
            push_str_chars(version.as_str(), &mut line);
            proof {
                assert(line@ =~= tiny_parse_error_line(version@));
            }
            let mut e = SPError::from_parse_errors(ErrorKind::FormatFailure, pe);
            e.attach(string_of(&line));
            return Err(e);
        },
    };
    if !(str_eq(tiny.header.namespace_a.as_str(), "official") && str_eq(
        tiny.header.namespace_b.as_str(),
        "intermediary",
    )) {
        let mut line: Vec<char> = Vec::new();
        push_str_chars("tiny mappings for ", &mut line);
        push_str_chars(version.as_str(), &mut line);
        push_str_chars(" are in namespaces ", &mut line);
        push_str_chars(tiny.header.namespace_a.as_str(), &mut line);
        line.push('/');
        push_str_chars(tiny.header.namespace_b.as_str(), &mut line);
        push_str_chars(", expected official/intermediary", &mut line);
        proof {
            assert(line@ =~= namespace_error_line(
                version@,
                tiny@.header.namespace_a,
                tiny@.header.namespace_b,
            ));
        }
        let mut e = SPError::new(ErrorKind::FormatFailure);
        e.attach(string_of(&line));
        return Err(e);
    }
    let ghost tmv = tiny@;
    let mut rest = tiny.content.classes;
    let ghost orig = rest@;
    let mut raws: Vec<RawClassMapping> = Vec::new();
    while rest.len() > 0
        invariant
            tmv.classes == crate::mappings::tiny::tiny_classes_view(orig),
            raws@.len() + rest@.len() <= orig.len() + raws@.len(),
            rest@.len() <= orig.len(),
            forall|k: int| 0 <= k < rest@.len() ==> rest@[k] == orig[orig.len() - rest@.len() + k],
            raw_classes_view(raws@) == fabric_raws(
                crate::mappings::tiny::tiny_classes_view(
                    orig.subrange(0, orig.len() - rest@.len()),
                ),
            ),
        decreases rest@.len(),
    {
        let ghost done = orig.len() - rest@.len();
        let c = rest.remove(0);
        proof {
            assert(c == orig[done]);
        }
        let ghost cv = orig[done]@;
        let mapped_first: Option<String> = if c.mapping.mapped_names.len() >= 1 {
            let mut names = c.mapping.mapped_names;
            names.remove(0)
        } else {
            None
        };
        if let Some(to_name) = mapped_first {
            let mut ms: Vec<RawMethodMapping> = Vec::new();
            let mut mrest = c.methods;
            let ghost morig = mrest@;
            while mrest.len() > 0
                invariant
                    cv.methods == crate::mappings::tiny::tiny_methods_view(morig),
                    mrest@.len() <= morig.len(),
                    forall|k: int|
                        0 <= k < mrest@.len() ==> mrest@[k] == morig[morig.len() - mrest@.len()
                            + k],
                    ms@.map_values(|m: RawMethodMapping| m@) == fabric_methods(
                        crate::mappings::tiny::tiny_methods_view(
                            morig.subrange(0, morig.len() - mrest@.len()),
                        ),
                    ),
                decreases mrest@.len(),
            {
                let ghost mdone = morig.len() - mrest@.len();
                let m = mrest.remove(0);
                proof {
                    assert(m == morig[mdone]);
                }
                let ghost mv = morig[mdone]@;
                let m_first: Option<String> = if m.mapping.mapped_names.len() >= 1 {
                    let mut names = m.mapping.mapped_names;
                    names.remove(0)
                } else {
                    None
                };
                let ghost prev_ms = ms@.map_values(|m: RawMethodMapping| m@);
                if let Some(m_to) = m_first {
                    ms.push(
                        RawMethodMapping {
                            descriptor: m.primary_desc,
                            mapping: (m.mapping.primary_name, m_to),
                        },
                    );
                }
                proof {
                    let upto = crate::mappings::tiny::tiny_methods_view(
                        morig.subrange(0, mdone + 1),
                    );
                    assert(upto.drop_last() =~= crate::mappings::tiny::tiny_methods_view(
                        morig.subrange(0, mdone),
                    ));
                    assert(upto[upto.len() - 1] == mv);
                    assert(ms@.map_values(|m: RawMethodMapping| m@) =~= fabric_methods(upto));
                }
            }
            proof {
                assert(morig.subrange(0, morig.len() as int) =~= morig);
            }
            let ghost prev_raws = raw_classes_view(raws@);
            raws.push(
                RawClassMapping { mapping: (c.mapping.primary_name, to_name), methods: ms },
            );
            proof {
                let upto = crate::mappings::tiny::tiny_classes_view(orig.subrange(0, done + 1));
                assert(upto.drop_last() =~= crate::mappings::tiny::tiny_classes_view(
                    orig.subrange(0, done),
                ));
                assert(upto[upto.len() - 1] == cv);
                assert(raw_classes_view(raws@) =~= fabric_raws(upto));
            }
        } else {
            proof {
                let upto = crate::mappings::tiny::tiny_classes_view(orig.subrange(0, done + 1));
                assert(upto.drop_last() =~= crate::mappings::tiny::tiny_classes_view(
                    orig.subrange(0, done),
                ));
                assert(upto[upto.len() - 1] == cv);
                assert(raw_classes_view(raws@) =~= fabric_raws(upto));
            }
        }
    }
    proof {
        assert(orig.subrange(0, orig.len() as int) =~= orig);
        assert(raw_classes_view(raws@) == fabric_raws(tmv.classes));
    }
    Ok(
        convert_mappings(
            NamesType::Obfuscated,
            NamesType::FabricIntermediary,
            version,
            raws,
            !obf_to_fabric,
        ),
    )
}

/// The URL of the intermediary artifact for one game version.
pub open spec fn spec_artifact_url(version: Seq<char>) -> Seq<char> {
    "https://maven.fabricmc.net/net/fabricmc/intermediary/"@ + version + "/intermediary-"@
        + version + "-v2.jar"@
}

pub fn artifact_url(version: &str) -> (r: String)
    ensures
        r@ == spec_artifact_url(version@),
{
    let mut out: Vec<char> = Vec::new();
    push_str_chars("https://maven.fabricmc.net/net/fabricmc/intermediary/", &mut out);
    push_str_chars(version, &mut out);
    push_str_chars("/intermediary-", &mut out);
    push_str_chars(version, &mut out);
    push_str_chars("-v2.jar", &mut out);
    proof {
        assert(out@ =~= spec_artifact_url(version@));
    }
    string_of(&out)
}

/// The cache identity of the intermediary artifact, given the body of its
/// `.sha512` sibling: no size is declared for it.
pub fn fetch_mappings_info(version: &str, sha512_body: String) -> (r: MappingDownload)
    ensures
        r@.kind == "fabric_intermediary"@,
        r@.source == spec_artifact_url(version@),
        r@.hash == crate::mappings::cache::HashCodeV::Sha512(sha512_body@),
        r@.size is None,
{
    MappingDownload {
        kind: "fabric_intermediary".to_owned(),
        source: artifact_url(version),
        hash: HashCode::Sha512(sha512_body),
        size: None,
    }
}

} // verus!
