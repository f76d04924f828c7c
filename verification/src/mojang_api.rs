//! The shapes of the vendor's version metadata, as plain values, and the
//! lookup of one version in the manifest.  Fetching and JSON decoding happen
//! outside the crate; the values arrive here already plain.
use vstd::prelude::*;

use crate::mappings::cache::{HashCode, HashCodeV, MappingDownload};
use crate::parsing::{push_str_chars, str_eq, string_of};
use crate::{ErrorKind, SPError};

verus! {

/// The version manifest: every published version, newest first.
#[derive(Debug)]
pub struct VersionManifest {
    pub versions: Vec<Version>,
}

/// One manifest row: the version id and the URL of its info document.
#[derive(Debug)]
pub struct Version {
    pub id: String,
    pub url: String,
}

/// The per-version info document, reduced to the downloads it names.
#[derive(Debug)]
pub struct VersionInfo {
    pub downloads: Downloads,
}

/// The client mappings artifact covers the server names too, so it is the
/// one download the trace rewriter needs.
#[derive(Debug)]
pub struct Downloads {
    pub client_mappings: Download,
}

/// One downloadable artifact: its digest, exact size, and URL.
#[derive(Debug)]
pub struct Download {
    pub sha1: String,
    pub size: u64,
    pub url: String,
}

impl MappingDownload {
    /// The cache identity of a vendor mappings download.
    pub fn from(value: Download) -> (r: MappingDownload)
        ensures
            r@.kind == "mojang"@,
            r@.source == value.url@,
            r@.hash == HashCodeV::Sha1(value.sha1@),
            r@.size == Some(value.size),
    {
        MappingDownload {
            kind: "mojang".to_owned(),
            source: value.url,
            hash: HashCode::Sha1(value.sha1),
            size: Some(value.size),
        }
    }
}

/// The context line of a version the manifest does not carry.
pub open spec fn version_error_line(id: Seq<char>) -> Seq<char> {
    "no version id matched '"@ + id + seq!['\'']
}

/// Find the requested version in the manifest; an id the manifest does not
/// carry is an invalid argument naming the id.
pub fn find_version(manifest: VersionManifest, id: &str) -> (r: Result<Version, SPError>)
    ensures
        match r {
            Ok(v) => exists|k: int|
                0 <= k < manifest.versions@.len() && manifest.versions@[k].id@ == id@ && v
                    == manifest.versions@[k] && (forall|j: int|
                    0 <= j < k ==> manifest.versions@[j].id@ != id@),
            Err(e) => {
                &&& forall|k: int|
                    0 <= k < manifest.versions@.len() ==> manifest.versions@[k].id@ != id@
                &&& e.kind == ErrorKind::InvalidArgument
                &&& e.parse_errors is None
                &&& e.context@.len() == 1
                &&& e.context@[0]@ == version_error_line(id@)
            },
        },
{
    let mut rest = manifest.versions;
    let ghost orig = rest@;
    let n = rest.len();
    let mut i: usize = 0;
    while rest.len() > 0
        invariant
            orig == manifest.versions@,
            n == orig.len(),
            i <= n,
            i + rest@.len() == orig.len(),
            forall|k: int| 0 <= k < rest@.len() ==> rest@[k] == orig[i + k],
            forall|j: int| 0 <= j < i ==> orig[j].id@ != id@,
        decreases rest@.len(),
    {
        let v = rest.remove(0);
        if str_eq(v.id.as_str(), id) {
            proof {
                assert(orig[i as int] == v);
                assert(0 <= i < manifest.versions@.len() && manifest.versions@[i as int].id@
                    == id@ && v == manifest.versions@[i as int] && (forall|j: int|
                    0 <= j < i ==> manifest.versions@[j].id@ != id@));
            }
            return Ok(v);
        }
        i += 1;
    }
    let mut line: Vec<char> = Vec::new();
    push_str_chars("no version id matched '", &mut line);
    push_str_chars(id, &mut line);
    line.push('\'');
    proof {
        assert(line@ =~= version_error_line(id@));
    }
    let mut e = SPError::new(ErrorKind::InvalidArgument);
    e.attach(string_of(&line));
    Err(e)
}

} // verus!
