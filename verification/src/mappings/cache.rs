//! The content-addressed artifact model: what identifies a download, where
//! its cache entry lives, and the integrity check with bounded retry that
//! decides which fetched bytes may be served.
//!
//! The fetching itself (network and disk) lives outside the crate; the
//! functions here judge bytes that are handed to them.
use vstd::prelude::*;

use crate::parsing::{chars_of, dec_str, push_dec_u64, push_str_chars, string_of};
use crate::{ErrorKind, SPError};

verus! {

/// The declared digest of an artifact, as a hex string.
#[derive(Debug)]
pub enum HashCode {
    Sha1(String),
    Sha512(String),
}

pub enum HashCodeV {
    Sha1(Seq<char>),
    Sha512(Seq<char>),
}

impl View for HashCode {
    type V = HashCodeV;

    open spec fn view(&self) -> HashCodeV {
        match self {
            HashCode::Sha1(s) => HashCodeV::Sha1(s@),
            HashCode::Sha512(s) => HashCodeV::Sha512(s@),
        }
    }
}

/// What uniquely identifies a cache entry: the artifact kind, its source
/// URL, its declared hash, and optionally its exact size.
#[derive(Debug)]
pub struct MappingDownload {
    pub kind: String,
    pub source: String,
    pub hash: HashCode,
    pub size: Option<u64>,
}

#[verifier::ext_equal]
pub struct MappingDownloadV {
    pub kind: Seq<char>,
    pub source: Seq<char>,
    pub hash: HashCodeV,
    pub size: Option<u64>,
}

impl View for MappingDownload {
    type V = MappingDownloadV;

    open spec fn view(&self) -> MappingDownloadV {
        MappingDownloadV {
            kind: self.kind@,
            source: self.source@,
            hash: self.hash@,
            size: self.size,
        }
    }
}

/// Names what the SHA-1 of a byte sequence is.
pub uninterp spec fn sha1_of(b: Seq<u8>) -> Seq<u8>;

/// Names what the SHA-512 of a byte sequence is.
pub uninterp spec fn sha512_of(b: Seq<u8>) -> Seq<u8>;

/// Relies on the `sha1` crate's `Sha1`: the digest depends on the bytes
/// alone and is 20 bytes long.
#[verifier::external_body]
fn sha1_digest(b: &Vec<u8>) -> (r: Vec<u8>)
    ensures
        r@ == sha1_of(b@),
        r@.len() == 20,
{
    <sha1::Sha1 as sha1::Digest>::digest(b.as_slice()).to_vec()
}

/// Relies on the `sha2` crate's `Sha512`: the digest depends on the bytes
/// alone and is 64 bytes long.
#[verifier::external_body]
fn sha512_digest(b: &Vec<u8>) -> (r: Vec<u8>)
    ensures
        r@ == sha512_of(b@),
        r@.len() == 64,
{
    <sha2::Sha512 as sha2::Digest>::digest(b.as_slice()).to_vec()
}

/// The lower-case hex character for one value below sixteen.
pub open spec fn hex_digit(d: nat) -> char {
    if d < 10 {
        (('0' as u8) + (d as u8)) as char
    } else {
        (('a' as u8) + ((d - 10) as u8)) as char
    }
}

/// The lower-case hex rendering of a byte sequence, two characters a byte.
pub open spec fn hex_str(bs: Seq<u8>) -> Seq<char>
    decreases bs.len(),
{
    if bs.len() == 0 {
        Seq::empty()
    } else {
        let last = bs[bs.len() - 1];
        hex_str(bs.drop_last()) + seq![
            hex_digit((last / 16) as nat),
            hex_digit((last % 16) as nat),
        ]
    }
}

fn hex_digit_char(d: u8) -> (c: char)
    requires
        d < 16,
    ensures
        c == hex_digit(d as nat),
{
    if d < 10 {
        (('0' as u8) + d) as char
    } else {
        (('a' as u8) + (d - 10)) as char
    }
}

/// Render bytes as lower-case hex.
fn to_hex(bs: &Vec<u8>) -> (r: Vec<char>)
    ensures
        r@ == hex_str(bs@),
{
    let mut out: Vec<char> = Vec::new();
    let mut i: usize = 0;
    while i < bs.len()
        invariant
            i <= bs@.len(),
            out@ == hex_str(bs@.subrange(0, i as int)),
        decreases bs@.len() - i,
    {
        let b = bs[i];
        out.push(hex_digit_char(b / 16));
        out.push(hex_digit_char(b % 16));
        proof {
            let next = bs@.subrange(0, i + 1);
            assert(next.drop_last() =~= bs@.subrange(0, i as int));
            assert(next[next.len() - 1] == bs@[i as int]);
            assert(out@ =~= hex_str(next));
        }
        i += 1;
    }
    proof {
        assert(bs@.subrange(0, bs@.len() as int) =~= bs@);
    }
    out
}

/// A character with an ASCII upper-case letter folded to lower case.
pub open spec fn lower_char(c: char) -> char {
    if 'A' <= c && c <= 'Z' {
        ((c as u8) + 32) as char
    } else {
        c
    }
}

pub open spec fn lower_chars(s: Seq<char>) -> Seq<char> {
    s.map_values(|c: char| lower_char(c))
}

fn ascii_lower(v: &Vec<char>) -> (r: Vec<char>)
    ensures
        r@ == lower_chars(v@),
{
    let mut out: Vec<char> = Vec::new();
    let mut i: usize = 0;
    while i < v.len()
        invariant
            i <= v@.len(),
            out@.len() == i,
            forall|k: int| 0 <= k < i ==> out@[k] == lower_char(v@[k]),
        decreases v@.len() - i,
    {
        let c = v[i];
        if 'A' <= c && c <= 'Z' {
            proof {
                assert(c as u8 <= 90) by {
                    assert('Z' as int == 90);
                }
            }
            out.push(((c as u8) + 32) as char);
        } else {
            out.push(c);
        }
        i += 1;
    }
    proof {
        assert(out@ =~= lower_chars(v@));
    }
    out
}

fn vec_chars_eq(a: &Vec<char>, b: &Vec<char>) -> (r: bool)
    ensures
        r == (a@ == b@),
{
    if a.len() != b.len() {
        return false;
    }
    let mut i: usize = 0;
    while i < a.len()
        invariant
            i <= a@.len() == b@.len(),
            forall|k: int| 0 <= k < i ==> a@[k] == b@[k],
        decreases a@.len() - i,
    {
        if a[i] != b[i] {
            return false;
        }
        i += 1;
    }
    proof {
        assert(a@ =~= b@);
    }
    true
}

/// The digest of these bytes under the declared algorithm, in hex.
pub open spec fn spec_digest_hex(h: HashCodeV, b: Seq<u8>) -> Seq<char> {
    match h {
        HashCodeV::Sha1(_) => hex_str(sha1_of(b)),
        HashCodeV::Sha512(_) => hex_str(sha512_of(b)),
    }
}

/// The context line of a digest mismatch: the computed and the declared hex.
pub open spec fn hash_mismatch_line(computed: Seq<char>, declared: Seq<char>) -> Seq<char> {
    "mappings content had hash "@ + computed + ", expected "@ + declared
}

/// The context line of a size mismatch: the actual and the declared size.
pub open spec fn size_mismatch_line(actual: nat, declared: u64) -> Seq<char> {
    "mappings content was "@ + dec_str(actual) + " bytes, expected "@ + dec_str(declared as nat)
}

/// The context line [`validate_mappings`] reports: the size complaint when
/// the declared size does not match, else the digest complaint.
pub open spec fn spec_validate_error_line(dl: MappingDownloadV, b: Seq<u8>) -> Seq<char> {
    if !size_ok(dl, b) {
        size_mismatch_line(b.len(), dl.size->Some_0)
    } else {
        hash_mismatch_line(
            spec_digest_hex(dl.hash, b),
            match dl.hash {
                HashCodeV::Sha1(v) => v,
                HashCodeV::Sha512(v) => v,
            },
        )
    }
}

impl HashCode {
    /// The short algorithm name used in cache file names.
    pub open spec fn spec_name(self) -> Seq<char> {
        match self@ {
            HashCodeV::Sha1(_) => "sha1"@,
            HashCodeV::Sha512(_) => "sha512"@,
        }
    }

    pub fn name(&self) -> (r: &'static str)
        ensures
            r@ == self.spec_name(),
    {
        match self {
            HashCode::Sha1(_) => "sha1",
            HashCode::Sha512(_) => "sha512",
        }
    }

    /// The declared hex digest.
    pub open spec fn spec_value(self) -> Seq<char> {
        match self@ {
            HashCodeV::Sha1(v) => v,
            HashCodeV::Sha512(v) => v,
        }
    }

    pub fn value(&self) -> (r: &str)
        ensures
            r@ == self.spec_value(),
    {
        match self {
            HashCode::Sha1(v) => v.as_str(),
            HashCode::Sha512(v) => v.as_str(),
        }
    }

    /// Whether these bytes carry the declared digest; the declared hex is
    /// compared case-insensitively.
    pub open spec fn spec_matches(self, b: Seq<u8>) -> bool {
        match self@ {
            HashCodeV::Sha1(x) => lower_chars(x) == hex_str(sha1_of(b)),
            HashCodeV::Sha512(x) => lower_chars(x) == hex_str(sha512_of(b)),
        }
    }

    /// Check the declared digest against the bytes; a mismatch reports the
    /// computed and the declared hex.
    pub fn verify(&self, content: &Vec<u8>) -> (r: Result<(), SPError>)
        ensures
            r is Ok <==> self.spec_matches(content@),
            r is Err ==> {
                &&& r->Err_0.kind == ErrorKind::IntegrityFailure
                &&& r->Err_0.parse_errors is None
                &&& r->Err_0.context@.len() == 1
                &&& r->Err_0.context@[0]@ == hash_mismatch_line(
                    spec_digest_hex(self@, content@),
                    self.spec_value(),
                )
            },
    {
        let (digest, expect) = match self {
            HashCode::Sha1(x) => (sha1_digest(content), x),
            HashCode::Sha512(x) => (sha512_digest(content), x),
        };
        let mut computed = to_hex(&digest);
        let declared = ascii_lower(&chars_of(expect.as_str()));
        if vec_chars_eq(&computed, &declared) {
            Ok(())
        } else {
            let mut line: Vec<char> = Vec::new();
            push_str_chars("mappings content had hash ", &mut line);
            line.append(&mut computed);
            push_str_chars(", expected ", &mut line);
            let mut decl = chars_of(expect.as_str());
            line.append(&mut decl);
            proof {
                assert(line@ =~= hash_mismatch_line(
                    spec_digest_hex(self@, content@),
                    self.spec_value(),
                ));
            }
            let mut e = SPError::new(ErrorKind::IntegrityFailure);
            e.attach(string_of(&line));
            Err(e)
        }
    }
}

/// Whether the declared size, if any, matches the bytes.
pub open spec fn size_ok(dl: MappingDownloadV, b: Seq<u8>) -> bool {
    match dl.size {
        Some(s) => b.len() == s,
        None => true,
    }
}

/// The integrity gate: size, then digest.
pub open spec fn spec_validate(dl: MappingDownloadV, b: Seq<u8>) -> bool {
    size_ok(dl, b) && match dl.hash {
        HashCodeV::Sha1(x) => lower_chars(x) == hex_str(sha1_of(b)),
        HashCodeV::Sha512(x) => lower_chars(x) == hex_str(sha512_of(b)),
    }
}

/// Check fetched bytes against what the download declares: the size when one
/// is declared, then the digest; a failure's context describes the actual
/// and expected size or digest.
pub fn validate_mappings(dl: &MappingDownload, bytes: &Vec<u8>) -> (r: Result<(), SPError>)
    ensures
        r is Ok <==> spec_validate(dl@, bytes@),
        r is Err ==> {
            &&& r->Err_0.kind == ErrorKind::IntegrityFailure
            &&& r->Err_0.parse_errors is None
            &&& r->Err_0.context@.len() == 1
            &&& r->Err_0.context@[0]@ == spec_validate_error_line(dl@, bytes@)
        },
{
    if let Some(expect_size) = dl.size {
        if bytes.len() as u64 != expect_size {
            let mut line: Vec<char> = Vec::new();
            push_str_chars("mappings content was ", &mut line);
            push_dec_u64(bytes.len() as u64, &mut line);
            push_str_chars(" bytes, expected ", &mut line);
            push_dec_u64(expect_size, &mut line);
            proof {
                assert(line@ =~= spec_validate_error_line(dl@, bytes@));
            }
            let mut e = SPError::new(ErrorKind::IntegrityFailure);
            e.attach(string_of(&line));
            return Err(e);
        }
    }
    dl.hash.verify(bytes)
}

/// The cache entry's path relative to the cache root:
/// `<kind>/<algo>.<hex>.mapsrc`.
pub open spec fn spec_cache_rel_path(dl: MappingDownloadV) -> Seq<char> {
    dl.kind + "/"@ + (match dl.hash {
        HashCodeV::Sha1(_) => "sha1"@,
        HashCodeV::Sha512(_) => "sha512"@,
    }) + "."@ + (match dl.hash {
        HashCodeV::Sha1(v) => v,
        HashCodeV::Sha512(v) => v,
    }) + ".mapsrc"@
}

pub fn cache_rel_path(dl: &MappingDownload) -> (r: String)
    ensures
        r@ == spec_cache_rel_path(dl@),
{
    let mut out = chars_of(dl.kind.as_str());
    let mut sep = chars_of("/");
    out.append(&mut sep);
    let mut algo = chars_of(dl.hash.name());
    out.append(&mut algo);
    let mut dot = chars_of(".");
    out.append(&mut dot);
    let mut value = chars_of(dl.hash.value());
    out.append(&mut value);
    let mut suffix = chars_of(".mapsrc");
    out.append(&mut suffix);
    string_of(&out)
}

/// How many times fetched bytes are checked before the load gives up.
pub open spec fn retry_limit() -> int {
    5
}

/// The first attempt index at or after `i`, below the retry limit, whose
/// bytes validate.
pub open spec fn first_valid(dl: MappingDownloadV, atts: Seq<Seq<u8>>, i: int) -> Option<int>
    decreases atts.len() + retry_limit() - i,
    when 0 <= i
{
    if i >= atts.len() || i >= retry_limit() {
        None
    } else if spec_validate(dl, atts[i]) {
        Some(i)
    } else {
        first_valid(dl, atts, i + 1)
    }
}

/// What the load returns over a stream of fetch attempts.
pub open spec fn load_result(dl: MappingDownloadV, atts: Seq<Seq<u8>>) -> Option<Seq<u8>> {
    match first_valid(dl, atts, 0) {
        Some(i) => Some(atts[i]),
        None => None,
    }
}

pub open spec fn attempts_view(atts: Seq<Vec<u8>>) -> Seq<Seq<u8>> {
    atts.map_values(|a: Vec<u8>| a@)
}

/// How many attempts a load examines over a given stream.
pub open spec fn tried_count(n: int) -> int {
    if n < 5 {
        n
    } else {
        5
    }
}

/// The heading of the aggregated failure report.
pub open spec fn load_failure_line(source: Seq<char>) -> Seq<char> {
    "failed to download and validate mappings from "@ + source
}

fn copy_bytes(v: &Vec<u8>) -> (r: Vec<u8>)
    ensures
        r@ == v@,
{
    let mut out: Vec<u8> = Vec::new();
    let mut i: usize = 0;
    while i < v.len()
        invariant
            i <= v@.len(),
            out@ == v@.subrange(0, i as int),
        decreases v@.len() - i,
    {
        out.push(v[i]);
        proof {
            assert(out@ =~= v@.subrange(0, i + 1));
        }
        i += 1;
    }
    proof {
        assert(v@.subrange(0, v@.len() as int) =~= v@);
    }
    out
}

/// Serve the first fetched content that passes validation, walking the given
/// attempts in order and giving up after the retry limit.
///
/// `attempts` models what successive openings of the cache entry would have
/// yielded: the current cache content or a fresh download on each try.  The
/// caller that does the real fetching evicts the entry after each failed
/// try, so a later attempt is a re-download.
pub fn load_mappings(dl: &MappingDownload, attempts: &Vec<Vec<u8>>) -> (r: Result<Vec<u8>, SPError>)
    ensures
        match r {
            Ok(b) => load_result(dl@, attempts_view(attempts@)) == Some(b@),
            Err(e) => {
                &&& load_result(dl@, attempts_view(attempts@)) is None
                &&& e.kind == ErrorKind::IntegrityFailure
                &&& e.parse_errors is None
                &&& e.context@.len() == 1 + tried_count(attempts@.len() as int)
                &&& e.context@[0]@ == load_failure_line(dl@.source)
                &&& forall|k: int|
                    0 <= k < tried_count(attempts@.len() as int) ==> e.context@[1 + k]@
                        == spec_validate_error_line(dl@, attempts_view(attempts@)[k])
            },
        },
{
    let ghost av = attempts_view(attempts@);
    let mut failures: Vec<String> = Vec::new();
    let mut i: usize = 0;
    while i < attempts.len() && i < 5
        invariant
            0 <= i,
            i <= attempts@.len(),
            i <= 5,
            av == attempts_view(attempts@),
            first_valid(dl@, av, 0) == first_valid(dl@, av, i as int),
            failures@.len() == i,
            forall|k: int|
                0 <= k < i ==> failures@[k]@ == spec_validate_error_line(dl@, av[k]),
        decreases attempts@.len() - i,
    {
        proof {
            assert(av[i as int] == attempts@[i as int]@);
        }
        match validate_mappings(dl, &attempts[i]) {
            Ok(_) => {
                return Ok(copy_bytes(&attempts[i]));
            },
            Err(e) => {
                let mut ctx = e.context;
                failures.push(ctx.remove(0));
            },
        }
        i += 1;
    }
    let mut heading: Vec<char> = Vec::new();
    push_str_chars("failed to download and validate mappings from ", &mut heading);
    let mut source = chars_of(dl.source.as_str());
    heading.append(&mut source);
    proof {
        assert(heading@ =~= load_failure_line(dl@.source));
    }
    let mut context: Vec<String> = Vec::new();
    context.push(string_of(&heading));
    let ghost fails = failures@;
    context.append(&mut failures);
    proof {
        assert(context@.len() == 1 + fails.len());
        assert(context@[0]@ == load_failure_line(dl@.source));
        assert(forall|k: int| 0 <= k < fails.len() ==> context@[1 + k] == fails[k]);
    }
    Err(SPError { kind: ErrorKind::IntegrityFailure, context, parse_errors: None })
}

/// Every lower-case hex string folds to itself, so a declared digest written
/// in lower case compares equal to the computed rendering directly.
pub proof fn lemma_hex_lower(bs: Seq<u8>)
    ensures
        lower_chars(hex_str(bs)) == hex_str(bs),
    decreases bs.len(),
{
    if bs.len() > 0 {
        lemma_hex_lower(bs.drop_last());
        assert(lower_chars(hex_str(bs)) =~= hex_str(bs)) by {
            let prev = hex_str(bs.drop_last());
            assert(forall|k: int|
                0 <= k < prev.len() ==> lower_chars(prev)[k] == lower_char(prev[k]));
        }
    } else {
        assert(lower_chars(hex_str(bs)) =~= hex_str(bs));
    }
}

/// Hash integrity: bytes whose digest and size are exactly what the download
/// declares are served back unchanged on the first attempt.
pub proof fn lemma_hash_integrity(dl: MappingDownloadV, b: Seq<u8>)
    requires
        dl.hash == HashCodeV::Sha1(hex_str(sha1_of(b))) || dl.hash == HashCodeV::Sha512(
            hex_str(sha512_of(b)),
        ),
        match dl.size {
            Some(s) => s == b.len(),
            None => true,
        },
    ensures
        spec_validate(dl, b),
        load_result(dl, seq![b]) == Some(b),
{
    match dl.hash {
        HashCodeV::Sha1(_) => lemma_hex_lower(sha1_of(b)),
        HashCodeV::Sha512(_) => lemma_hex_lower(sha512_of(b)),
    }
    assert(seq![b][0] == b);
}

proof fn lemma_first_valid_step(dl: MappingDownloadV, atts: Seq<Seq<u8>>, k: int)
    requires
        0 <= k,
        forall|j: int| 0 <= j < k ==> !spec_validate(dl, atts[j]),
    ensures
        first_valid(dl, atts, 0) == first_valid(dl, atts, k),
    decreases k,
{
    if k > 0 {
        lemma_first_valid_step(dl, atts, k - 1);
    }
}

/// Cache self-heal: when some attempt within the retry limit yields bytes
/// that validate and every earlier attempt does not, the load succeeds with
/// exactly those bytes.
pub proof fn lemma_cache_self_heal(dl: MappingDownloadV, atts: Seq<Seq<u8>>, k: int)
    requires
        0 <= k < retry_limit(),
        k < atts.len(),
        spec_validate(dl, atts[k]),
        forall|j: int| 0 <= j < k ==> !spec_validate(dl, atts[j]),
    ensures
        load_result(dl, atts) == Some(atts[k]),
{
    lemma_first_valid_step(dl, atts, k);
}

} // verus!
