//! The install pipeline's logic: URL rendering, version normalization for
//! the lock writer, range satisfaction, checksum verification, archive
//! entry selection, and the per-tool install decisions.  Network and disk
//! work stays with the caller; every function here computes.
use vstd::prelude::*;

use crate::config::{effective_template_spec, TlkConfig, Tool, ToolKind};
use crate::platform::{platform, platform_adjust_spec};
use crate::text;
use crate::version::parse_version_view;
use crate::vreq;

verus! {

/// The text with `{version}`, `{os}` and `{arch}` substituted, in that
/// order.
pub open spec fn render_spec(tpl: Seq<char>, version: Seq<char>, os: Seq<char>, arch: Seq<char>)
    -> Seq<char> {
    text::replace_spec(
        text::replace_spec(text::replace_spec(tpl, "{version}"@, version), "{os}"@, os),
        "{arch}"@,
        arch,
    )
}

/// Substitute the three placeholders of a template.
pub fn render_template(tpl: &str, version: &str, os: &str, arch: &str) -> (r: String)
    ensures
        r@ == render_spec(tpl@, version@, os@, arch@),
{
    proof {
        reveal_strlit("{version}");
        reveal_strlit("{os}");
        reveal_strlit("{arch}");
    }
    let s1 = text::replace_all(tpl, "{version}", version);
    let s2 = text::replace_all(s1.as_str(), "{os}", os);
    text::replace_all(s2.as_str(), "{arch}", arch)
}

/// The fully rendered download URL of a tool for a host: the effective
/// template with placeholders substituted, then platform-adjusted.
pub open spec fn render_source_spec(t: Tool, os: Seq<char>, arch: Seq<char>) -> Seq<char> {
    platform_adjust_spec(
        os,
        render_spec(effective_template_spec(t, os, arch), t.version@, os, arch),
    )
}

/// Render the concrete download URL of a tool for a host.
pub fn render_source(tool: &Tool, os: &str, arch: &str) -> (r: String)
    ensures
        r@ == render_source_spec(*tool, os@, arch@),
{
    let tpl = tool.effective_source_template(os, arch);
    let base = render_template(tpl.as_str(), tool.version.as_str(), os, arch);
    let p = platform(os);
    p.adjust_direct_url(base.as_str())
}

// ---------------------------------------------------------------------------
// Version normalization for the lock writer
// ---------------------------------------------------------------------------
/// A leading range operator character.
pub open spec fn is_op_char(c: char) -> bool {
    c == '^' || c == '~' || c == '>' || c == '=' || c == '<'
}

/// `s` without its leading run of range operator characters.
pub open spec fn strip_leading_ops(s: Seq<char>) -> Seq<char>
    decreases s.len(),
{
    if s.len() > 0 && is_op_char(s[0]) {
        strip_leading_ops(s.skip(1))
    } else {
        s
    }
}

/// The `(exact, requested)` pair the lock writer records for a version
/// text: an exact version stands alone; otherwise the first token before
/// any space or `||`, stripped of leading operators, is used when it is
/// exact, with the original text remembered as the requested range.
pub open spec fn normalize_version_spec(s: Seq<char>) -> (Seq<char>, Option<Seq<char>>) {
    let t = text::trim_spec(s);
    if parse_version_view(t) is Some {
        (t, Option::None)
    } else {
        let w0 = if text::first_match(t, seq![' ']) >= 0 {
            t.take(text::first_match(t, seq![' ']))
        } else {
            t
        };
        let w1 = if text::first_match(w0, seq!['|', '|']) >= 0 {
            text::trim_spec(w0.take(text::first_match(w0, seq!['|', '|'])))
        } else {
            w0
        };
        let w2 = text::trim_spec(strip_leading_ops(w1));
        if parse_version_view(w2) is Some {
            (w2, Option::Some(s))
        } else {
            (s, Option::None)
        }
    }
}

fn is_op_char_exec(c: char) -> (r: bool)
    ensures
        r == is_op_char(c),
{
    c == '^' || c == '~' || c == '>' || c == '=' || c == '<'
}

fn strip_leading_ops_exec(s: &str) -> (r: String)
    ensures
        r@ == strip_leading_ops(s@),
{
    let n = s.unicode_len();
    let mut a: usize = 0;
    while a < n && is_op_char_exec(s.get_char(a))
        invariant
            n == s@.len(),
            a <= n,
            forall|j: int| 0 <= j < a ==> is_op_char(s@[j]),
        decreases n - a,
    {
        a += 1;
    }
    proof {
        lemma_strip_leading_ops_at(s@, a as int);
        assert(s@.skip(a as int) =~= s@.subrange(a as int, n as int));
    }
    s.substring_char(a, n).to_owned()
}

proof fn lemma_strip_leading_ops_at(s: Seq<char>, a: int)
    requires
        0 <= a <= s.len(),
        forall|j: int| 0 <= j < a ==> is_op_char(s[j]),
        a < s.len() ==> !is_op_char(s[a]),
    ensures
        strip_leading_ops(s) == s.skip(a),
    decreases a,
{
    if a == 0 {
        assert(s.skip(0) =~= s);
    } else {
        lemma_strip_leading_ops_at(s.skip(1), a - 1);
        assert(s.skip(1).skip(a - 1) =~= s.skip(a));
    }
}

/// Normalize a version text to the exact version and remembered range.
#[verifier::loop_isolation(false)]
pub fn normalize_version(spec: &str) -> (r: (String, Option<String>))
    ensures
        r.0@ == normalize_version_spec(spec@).0,
        (match r.1 {
            Some(q) => normalize_version_spec(spec@).1 == Option::Some(q@),
            None => normalize_version_spec(spec@).1 is None,
        }),
{
    proof {
        reveal_strlit(" ");
        reveal_strlit("||");
        assert(" "@ =~= seq![' ']);
        assert("||"@ =~= seq!['|', '|']);
    }
    let t = text::trim(spec);
    if crate::version::parse_version(t.as_str()).is_some() {
        return (t, None);
    }
    let w0: String = match text::split_once_str(t.as_str(), " ") {
        Some(p) => p.0,
        None => t.clone(),
    };
    let w1: String = match text::split_once_str(w0.as_str(), "||") {
        Some(p) => text::trim(p.0.as_str()),
        None => w0.clone(),
    };
    let w2 = text::trim(strip_leading_ops_exec(w1.as_str()).as_str());
    if crate::version::parse_version(w2.as_str()).is_some() {
        (w2, Some(spec.to_owned()))
    } else {
        (spec.to_owned(), None)
    }
}

// ---------------------------------------------------------------------------
// Range checks
// ---------------------------------------------------------------------------
/// The version text is a range rather than an exact version.
pub open spec fn is_range_spec(s: Seq<char>) -> bool {
    let t = text::trim_spec(s);
    parse_version_view(t) is None && (t.contains('^') || t.contains('~') || t.contains('*')
        || t.contains('x') || t.contains('X') || text::contains_spec(t, seq!['|', '|'])
        || t.contains('-') || t.contains('>') || t.contains('<') || t.contains('=') || t.contains(
        ' ',
    ))
}

/// Decide whether a version text is a range.
pub fn is_range(spec: &str) -> (r: bool)
    ensures
        r == is_range_spec(spec@),
{
    proof {
        reveal_strlit("||");
        assert("||"@ =~= seq!['|', '|']);
    }
    let t = text::trim(spec);
    if crate::version::parse_version(t.as_str()).is_some() {
        return false;
    }
    text::contains_char(t.as_str(), '^') || text::contains_char(t.as_str(), '~')
        || text::contains_char(t.as_str(), '*') || text::contains_char(t.as_str(), 'x')
        || text::contains_char(t.as_str(), 'X') || text::contains_str(t.as_str(), "||")
        || text::contains_char(t.as_str(), '-') || text::contains_char(t.as_str(), '>')
        || text::contains_char(t.as_str(), '<') || text::contains_char(t.as_str(), '=')
        || text::contains_char(t.as_str(), ' ')
}

/// One range clause accepts the version: an exact clause must equal it (build
/// identifiers aside); otherwise a hyphen range is rewritten to `>=A <=B`,
/// wildcards and partials are normalized as the resolver does, and the
/// comparators must all accept it.
pub open spec fn clause_satisfies(s: Seq<char>, v: crate::version::VersionView) -> bool {
    let c = text::trim_spec(s);
    if parse_version_view(c) is Some {
        let w = parse_version_view(c).unwrap();
        w.major == v.major && w.minor == v.minor && w.patch == v.patch && w.pre == v.pre
    } else {
        let ih = text::first_match(c, seq!['-']);
        let c2 = if ih >= 0 && c.contains(' ') && text::trim_spec(c.take(ih)).len() > 0
            && text::trim_spec(c.skip(ih + 1)).len() > 0 {
            seq!['>', '='] + text::trim_spec(c.take(ih)) + seq![' ', '<', '='] + text::trim_spec(
                c.skip(ih + 1),
            )
        } else {
            c
        };
        let norm0 = text::replace_spec(c2, seq!['*'], seq!['x']);
        let dots = text::count_char(norm0, '.');
        let norm = if parse_version_view(norm0) is None && ((dots == 1 && !norm0.contains('x')
            && !norm0.contains('^') && !norm0.contains('~')) || (dots == 0 && text::all_digits(
            norm0,
        ))) {
            norm0 + seq!['.', 'x']
        } else {
            norm0
        };
        match vreq::parse_req_view(norm) {
            Option::Some(req) => vreq::req_matches(req, v),
            Option::None => false,
        }
    }
}

/// Some clause of the range accepts the version.
pub open spec fn some_clause_satisfies(
    clauses: Seq<Seq<char>>,
    v: crate::version::VersionView,
) -> bool {
    exists|i: int|
        0 <= i < clauses.len() && text::trim_spec(#[trigger] clauses[i]).len() > 0
            && clause_satisfies(clauses[i], v)
}

/// The range accepts the version.
pub open spec fn range_satisfies_spec(range: Seq<char>, vtxt: Seq<char>) -> bool {
    match parse_version_view(text::trim_spec(vtxt)) {
        Option::Some(v) => {
            if text::contains_spec(range, seq!['|', '|']) {
                some_clause_satisfies(text::split_spec(range, seq!['|', '|']), v)
            } else {
                clause_satisfies(range, v)
            }
        },
        Option::None => false,
    }
}

fn clause_satisfies_exec(s: &str, v: &crate::version::Version) -> (r: bool)
    ensures
        r == clause_satisfies(s@, v@),
{
    proof {
        reveal_strlit("-");
        reveal_strlit("*");
        reveal_strlit("x");
        reveal_strlit(">=");
        reveal_strlit(" <=");
        reveal_strlit(".x");
        assert("-"@ =~= seq!['-']);
        assert("*"@ =~= seq!['*']);
        assert("x"@ =~= seq!['x']);
        assert(">="@ =~= seq!['>', '=']);
        assert(" <="@ =~= seq![' ', '<', '=']);
        assert(".x"@ =~= seq!['.', 'x']);
    }
    let c = text::trim(s);
    match crate::version::parse_version(c.as_str()) {
        Some(w) => {
            return w.major == v.major && w.minor == v.minor && w.patch == v.patch
                && crate::vreq::eq_idents(&w.pre, &v.pre);
        },
        None => {},
    }
    let mut c2 = c.clone();
    if text::contains_char(c.as_str(), ' ') {
        match text::split_once_str(c.as_str(), "-") {
            Some(p) => {
                let a = text::trim(p.0.as_str());
                let b = text::trim(p.1.as_str());
                if a.as_str().unicode_len() > 0 && b.as_str().unicode_len() > 0 {
                    let mut rw = ">=".to_owned();
                    rw.append(a.as_str());
                    rw.append(" <=");
                    rw.append(b.as_str());
                    c2 = rw;
                }
            },
            None => {},
        }
    }
    let norm0 = text::replace_all(c2.as_str(), "*", "x");
    let mut norm = norm0.clone();
    let parse_ok = crate::version::parse_version(norm0.as_str()).is_some();
    let dots = text::count_char_exec(norm0.as_str(), '.');
    let cond1 = dots == 1 && !text::contains_char(norm0.as_str(), 'x') && !text::contains_char(
        norm0.as_str(),
        '^',
    ) && !text::contains_char(norm0.as_str(), '~');
    let cond2 = dots == 0 && crate::version::all_digits_exec(norm0.as_str());
    if !parse_ok && (cond1 || cond2) {
        norm.append(".x");
    }
    match vreq::parse_req(norm.as_str()) {
        Some(req) => vreq::req_matches_exec(&req, v),
        None => false,
    }
}

/// Decide whether a locked version satisfies a configured range.
#[verifier::loop_isolation(false)]
pub fn range_satisfies(range: &str, version: &str) -> (r: bool)
    ensures
        r == range_satisfies_spec(range@, version@),
{
    proof {
        reveal_strlit("||");
        assert("||"@ =~= seq!['|', '|']);
    }
    let t = text::trim(version);
    let v = match crate::version::parse_version(t.as_str()) {
        Some(v) => v,
        None => {
            return false;
        },
    };
    if text::contains_str(range, "||") {
        let clauses = text::split_all(range, "||");
        let ghost cls = clauses.deep_view();
        let n = clauses.len();
        let mut i: usize = 0;
        while i < n
            invariant
                n == clauses.len(),
                cls == clauses.deep_view(),
                i <= n,
                forall|j: int|
                    0 <= j < i ==> !(text::trim_spec(#[trigger] cls[j]).len() > 0
                        && clause_satisfies(cls[j], v@)),
            decreases n - i,
        {
            proof {
                assert(clauses[i as int]@ == cls[i as int]);
            }
            let cl = text::trim(clauses[i].as_str());
            if cl.as_str().unicode_len() > 0 && clause_satisfies_exec(clauses[i].as_str(), &v) {
                proof {
                    assert(some_clause_satisfies(cls, v@));
                }
                return true;
            }
            i += 1;
        }
        proof {
            assert(!some_clause_satisfies(cls, v@));
        }
        false
    } else {
        clause_satisfies_exec(range, &v)
    }
}

// ---------------------------------------------------------------------------
// Checksum and archives
// ---------------------------------------------------------------------------
/// Why an install step failed.
#[derive(Debug)]
pub enum InstallError {
    /// The downloaded body does not hash to the declared checksum.
    ChecksumMismatch { expected: String, got: String },
    /// The HTTP status was not a success.
    DownloadFailed { status: u16 },
    /// The URL names no supported archive format.
    UnsupportedArchive { url: String },
    /// The archive could not be read.
    CorruptArchive { url: String },
    /// No archive entry matched the expected binary.
    BinaryNotFound { binary: String, name: String },
    /// Some of the installs in a batch failed.
    ToolsFailed { count: usize },
}

/// The lowercase hex SHA-256 digest of a byte string.
pub uninterp spec fn sha256_hex_of(data: Seq<u8>) -> Seq<char>;

/// Relies on sha2's `Sha256` and `hex::encode`: the digest is a function of
/// the bytes alone, rendered as lowercase hex.
#[verifier::external_body]
fn sha256_hex(data: &[u8]) -> (r: String)
    ensures
        r@ == sha256_hex_of(data@),
{
    let mut hasher = Sha256::new();
    hasher.update(data);
    hex::encode(hasher.finalize())
}

/// Compute the digest of a byte string, as lowercase hex text.
pub fn digest_hex(data: &[u8]) -> (r: String)
    ensures
        r@ == sha256_hex_of(data@),
{
    sha256_hex(data)
}

/// Check a body against a declared checksum.
pub fn verify_sha256(data: &[u8], expected: &str) -> (r: Result<(), InstallError>)
    ensures
        match r {
            Ok(_) => sha256_hex_of(data@) == expected@,
            Err(e) => sha256_hex_of(data@) != expected@ && (e matches
            InstallError::ChecksumMismatch { expected: x, got: g } && x@ == expected@ && g@
                == sha256_hex_of(data@)),
        },
{
    let hex = sha256_hex(data);
    if text::str_eq(hex.as_str(), expected) {
        Ok(())
    } else {
        Err(InstallError::ChecksumMismatch { expected: expected.to_owned(), got: hex })
    }
}

/// A download status is accepted exactly when it is a success status.
pub fn check_download_status(status: u16) -> (r: Result<(), InstallError>)
    ensures
        match r {
            Ok(_) => 200 <= status < 300,
            Err(e) => !(200 <= status < 300) && (e matches InstallError::DownloadFailed {
                status: s,
            } && s == status),
        },
{
    if 200 <= status && status < 300 {
        Ok(())
    } else {
        Err(InstallError::DownloadFailed { status })
    }
}

/// The gzip decompression of a byte string, if it decompresses.
pub uninterp spec fn gunzip_of(data: Seq<u8>) -> Option<Seq<u8>>;

/// Relies on flate2's `GzDecoder`: decompression is a function of the bytes
/// alone.
#[verifier::external_body]
fn gunzip(data: &[u8]) -> (r: Option<Vec<u8>>)
    ensures
        r.deep_view() == gunzip_of(data@),
{
    let mut d = flate2::read::GzDecoder::new(data);
    let mut out = Vec::new();
    std::io::Read::read_to_end(&mut d, &mut out).ok()?;
    Some(out)
}

/// The entry paths of a tar stream, in order, if it can be walked.
pub uninterp spec fn tar_entry_names_of(data: Seq<u8>) -> Option<Seq<Seq<char>>>;

/// Relies on tar's `Archive`: the entry list of a tar stream depends on the
/// bytes alone.  Entry paths convert platform-dependently (a non-UTF-8 name
/// is lossy on Unix and an error on Windows), so the name stands for the
/// build's own platform behavior.
#[verifier::external_body]
fn tar_entry_names(data: &[u8]) -> (r: Option<Vec<String>>)
    ensures
        r.deep_view() == tar_entry_names_of(data@),
{
    let mut a = tar::Archive::new(data);
    let mut out = Vec::new();
    for e in a.entries().ok()? {
        out.push(e.ok()?.path().ok()?.to_string_lossy().into_owned());
    }
    Some(out)
}

/// The bytes of the tar entry at an index, if it can be read.
pub uninterp spec fn tar_entry_data_of(data: Seq<u8>, idx: int) -> Option<Seq<u8>>;

/// Relies on tar's `Archive`: the bytes of the entry at a position depend on
/// the stream and the position alone.
#[verifier::external_body]
fn tar_entry_data(data: &[u8], idx: usize) -> (r: Option<Vec<u8>>)
    ensures
        r.deep_view() == tar_entry_data_of(data@, idx as int),
{
    let mut a = tar::Archive::new(data);
    for (i, e) in a.entries().ok()?.enumerate() {
        if i == idx {
            let mut out = Vec::new();
            std::io::Read::read_to_end(&mut e.ok()?, &mut out).ok()?;
            return Some(out);
        }
    }
    None
}

/// The entry names of a zip archive, in index order, if it opens.
pub uninterp spec fn zip_entry_names_of(data: Seq<u8>) -> Option<Seq<Seq<char>>>;

/// Relies on zip's `ZipArchive`: the name list depends on the bytes alone.
#[verifier::external_body]
fn zip_entry_names(data: &[u8]) -> (r: Option<Vec<String>>)
    ensures
        r.deep_view() == zip_entry_names_of(data@),
{
    let mut z = zip::ZipArchive::new(std::io::Cursor::new(data)).ok()?;
    let mut out = Vec::new();
    for i in 0..z.len() {
        out.push(z.by_index(i).ok()?.name().to_string());
    }
    Some(out)
}

/// The bytes of the zip entry at an index, if it can be read.
pub uninterp spec fn zip_entry_data_of(data: Seq<u8>, idx: int) -> Option<Seq<u8>>;

/// Relies on zip's `ZipArchive::by_index`: the bytes of the entry at a
/// position depend on the archive bytes and the position alone.
#[verifier::external_body]
fn zip_entry_data(data: &[u8], idx: usize) -> (r: Option<Vec<u8>>)
    ensures
        r.deep_view() == zip_entry_data_of(data@, idx as int),
{
    let mut z = zip::ZipArchive::new(std::io::Cursor::new(data)).ok()?;
    let mut f = z.by_index(idx).ok()?;
    let mut out = Vec::new();
    std::io::Read::read_to_end(&mut f, &mut out).ok()?;
    Some(out)
}

/// How an artifact is packaged, judged by its URL suffix.
#[derive(PartialEq, Eq, Structural, Clone, Copy, Debug)]
pub enum ArchiveFormat {
    TarGz,
    Zip,
    Other,
}

/// The archive format a URL names.
pub open spec fn detect_format_spec(url: Seq<char>) -> ArchiveFormat {
    if text::ends_with_spec(url, ".tar.gz"@) || text::ends_with_spec(url, ".tgz"@) {
        ArchiveFormat::TarGz
    } else if text::ends_with_spec(url, ".zip"@) {
        ArchiveFormat::Zip
    } else {
        ArchiveFormat::Other
    }
}

/// Judge the archive format of a URL.
pub fn detect_format(url: &str) -> (r: ArchiveFormat)
    ensures
        r == detect_format_spec(url@),
{
    if text::ends_with(url, ".tar.gz") || text::ends_with(url, ".tgz") {
        ArchiveFormat::TarGz
    } else if text::ends_with(url, ".zip") {
        ArchiveFormat::Zip
    } else {
        ArchiveFormat::Other
    }
}

/// An archive entry path matches a candidate: equal, or ending in
/// `/candidate` on a path-component boundary.
pub open spec fn entry_matches_spec(path: Seq<char>, cand: Seq<char>) -> bool {
    path == cand || text::ends_with_spec(path, seq!['/'] + cand)
}

/// Some candidate matches the path.
pub open spec fn any_candidate_matches(path: Seq<char>, cands: Seq<Seq<char>>) -> bool {
    exists|j: int| 0 <= j < cands.len() && entry_matches_spec(path, #[trigger] cands[j])
}

/// The first entry index whose path matches a candidate, or -1.
pub open spec fn first_matching_entry(names: Seq<Seq<char>>, cands: Seq<Seq<char>>) -> int
    decreases names.len(),
{
    if names.len() == 0 {
        -1
    } else if any_candidate_matches(names[0], cands) {
        0
    } else {
        let r = first_matching_entry(names.skip(1), cands);
        if r < 0 {
            -1
        } else {
            1 + r
        }
    }
}

fn entry_matches_exec(path: &str, cand: &str) -> (r: bool)
    ensures
        r == entry_matches_spec(path@, cand@),
{
    proof {
        reveal_strlit("/");
        assert("/"@ =~= seq!['/']);
    }
    if text::str_eq(path, cand) {
        return true;
    }
    let mut slashed = "/".to_owned();
    slashed.append(cand);
    proof {
        assert(slashed@ == seq!['/'] + cand@);
    }
    text::ends_with(path, slashed.as_str())
}

/// Find the first archive entry matching one of the candidate names.
#[verifier::loop_isolation(false)]
pub fn find_archive_entry(names: &Vec<String>, cands: &Vec<String>) -> (r: Option<usize>)
    ensures
        match r {
            Some(i) => i < names.len() && first_matching_entry(names.deep_view(), cands.deep_view())
                == i as int,
            None => first_matching_entry(names.deep_view(), cands.deep_view()) == -1,
        },
{
    let ghost nv = names.deep_view();
    let ghost cv = cands.deep_view();
    let n = names.len();
    let mut i: usize = 0;
    proof {
        assert(nv.skip(0) =~= nv);
    }
    while i < n
        invariant
            n == names.len(),
            i <= n,
            nv == names.deep_view(),
            cv == cands.deep_view(),
            first_matching_entry(nv, cv) == (if first_matching_entry(nv.skip(i as int), cv) < 0 {
                -1
            } else {
                i + first_matching_entry(nv.skip(i as int), cv)
            }),
        decreases n - i,
    {
        proof {
            assert(nv.skip(i as int)[0] == nv[i as int]);
            assert(names[i as int]@ == nv[i as int]);
            assert(nv.skip(i as int).skip(1) =~= nv.skip(i + 1));
        }
        let m = cands.len();
        let mut j: usize = 0;
        while j < m
            invariant
                m == cands.len(),
                j <= m,
                cv == cands.deep_view(),
                nv == names.deep_view(),
                i < names.len(),
                forall|k: int| 0 <= k < j ==> !entry_matches_spec(nv[i as int], #[trigger] cv[k]),
            decreases m - j,
        {
            proof {
                assert(cands[j as int]@ == cv[j as int]);
            }
            if entry_matches_exec(names[i].as_str(), cands[j].as_str()) {
                proof {
                    assert(any_candidate_matches(nv[i as int], cv));
                }
                return Some(i);
            }
            j += 1;
        }
        proof {
            assert(!any_candidate_matches(nv[i as int], cv));
        }
        i += 1;
    }
    proof {
        assert(nv.skip(n as int) =~= Seq::<Seq<char>>::empty());
    }
    None
}

/// The relative path looked for inside archives: the declared `binary`, or
/// the tool name.
pub open spec fn binary_rel_spec(t: Tool) -> Seq<char> {
    match t.binary {
        Option::Some(b) => b@,
        Option::None => t.name@,
    }
}

/// What extracting from an archive body may return.  Success carries the
/// bytes of the first entry matching a candidate; `UnsupportedArchive` comes
/// exactly on a URL naming neither a gzipped tar nor a zip; `BinaryNotFound`
/// exactly when the archive decodes but no entry matches; `CorruptArchive`
/// exactly when decompression, the entry listing, or the matched entry's
/// read fails.
pub open spec fn extract_spec(
    data: Seq<u8>,
    url: Seq<char>,
    cands: Seq<Seq<char>>,
    binary: Seq<char>,
    name: Seq<char>,
    r: Result<Vec<u8>, InstallError>,
) -> bool {
    match r {
        Ok(bytes) => {
            ||| ({
                &&& detect_format_spec(url) == ArchiveFormat::TarGz
                &&& gunzip_of(data) matches Option::Some(t)
                &&& tar_entry_names_of(t) matches Option::Some(ns)
                &&& first_matching_entry(ns, cands) >= 0
                &&& tar_entry_data_of(t, first_matching_entry(ns, cands)) == Option::Some(bytes@)
            })
            ||| ({
                &&& detect_format_spec(url) == ArchiveFormat::Zip
                &&& zip_entry_names_of(data) matches Option::Some(ns)
                &&& first_matching_entry(ns, cands) >= 0
                &&& zip_entry_data_of(data, first_matching_entry(ns, cands)) == Option::Some(
                    bytes@,
                )
            })
        },
        Err(InstallError::UnsupportedArchive { url: u }) => u@ == url && detect_format_spec(url)
            == ArchiveFormat::Other,
        Err(InstallError::BinaryNotFound { binary: b, name: nm }) => b@ == binary && nm@ == name
            && (match detect_format_spec(url) {
            ArchiveFormat::TarGz => gunzip_of(data) matches Option::Some(t) && tar_entry_names_of(
                t,
            ) matches Option::Some(ns) && first_matching_entry(ns, cands) == -1,
            ArchiveFormat::Zip => zip_entry_names_of(data) matches Option::Some(ns)
                && first_matching_entry(ns, cands) == -1,
            ArchiveFormat::Other => false,
        }),
        Err(InstallError::CorruptArchive { url: u }) => u@ == url && (match detect_format_spec(
            url,
        ) {
            ArchiveFormat::TarGz => {
                ||| gunzip_of(data) is None
                ||| (gunzip_of(data) matches Option::Some(t) && {
                    ||| tar_entry_names_of(t) is None
                    ||| (tar_entry_names_of(t) matches Option::Some(ns) && first_matching_entry(
                        ns,
                        cands,
                    ) >= 0 && tar_entry_data_of(t, first_matching_entry(ns, cands)) is None)
                })
            },
            ArchiveFormat::Zip => {
                ||| zip_entry_names_of(data) is None
                ||| (zip_entry_names_of(data) matches Option::Some(ns) && first_matching_entry(
                    ns,
                    cands,
                ) >= 0 && zip_entry_data_of(data, first_matching_entry(ns, cands)) is None)
            },
            ArchiveFormat::Other => false,
        }),
        Err(_) => false,
    }
}

/// Extract the wanted binary's bytes from a downloaded archive body.
pub fn extract_binary(
    data: &[u8],
    url: &str,
    cands: &Vec<String>,
    binary: &str,
    name: &str,
) -> (r: Result<Vec<u8>, InstallError>)
    ensures
        extract_spec(data@, url@, cands.deep_view(), binary@, name@, r),
{
    match detect_format(url) {
        ArchiveFormat::TarGz => {
            let tarball = match gunzip(data) {
                Some(t) => t,
                None => {
                    return Err(InstallError::CorruptArchive { url: url.to_owned() });
                },
            };
            proof {
                assert(tarball.deep_view() =~= tarball@);
            }
            let names = match tar_entry_names(tarball.as_slice()) {
                Some(ns) => ns,
                None => {
                    return Err(InstallError::CorruptArchive { url: url.to_owned() });
                },
            };
            match find_archive_entry(&names, cands) {
                Some(i) => match tar_entry_data(tarball.as_slice(), i) {
                    Some(bytes) => {
                        proof {
                            assert(bytes.deep_view() =~= bytes@);
                        }
                        Ok(bytes)
                    },
                    None => Err(InstallError::CorruptArchive { url: url.to_owned() }),
                },
                None => Err(
                    InstallError::BinaryNotFound {
                        binary: binary.to_owned(),
                        name: name.to_owned(),
                    },
                ),
            }
        },
        ArchiveFormat::Zip => {
            let names = match zip_entry_names(data) {
                Some(ns) => ns,
                None => {
                    return Err(InstallError::CorruptArchive { url: url.to_owned() });
                },
            };
            match find_archive_entry(&names, cands) {
                Some(i) => match zip_entry_data(data, i) {
                    Some(bytes) => {
                        proof {
                            assert(bytes.deep_view() =~= bytes@);
                        }
                        Ok(bytes)
                    },
                    None => Err(InstallError::CorruptArchive { url: url.to_owned() }),
                },
                None => Err(
                    InstallError::BinaryNotFound {
                        binary: binary.to_owned(),
                        name: name.to_owned(),
                    },
                ),
            }
        },
        ArchiveFormat::Other => Err(InstallError::UnsupportedArchive { url: url.to_owned() }),
    }
}

/// An unchanged tool is skipped: a second install with the installed
/// version already equal to the wanted one downloads nothing.
pub fn should_skip_install(tool: &Tool, installed: Option<&String>) -> (r: bool)
    ensures
        r == (installed matches Some(v) && v@ == tool.version@),
{
    match installed {
        Some(v) => text::str_eq(v.as_str(), tool.version.as_str()),
        None => false,
    }
}

/// The relative binary name looked for inside archives: the declared
/// `binary` path, or the tool name.
pub fn binary_rel_name(tool: &Tool) -> (r: String)
    ensures
        match tool.binary {
            Option::Some(b) => r@ == b@,
            Option::None => r@ == tool.name@,
        },
{
    match &tool.binary {
        Some(b) => b.clone(),
        None => tool.name.clone(),
    }
}

/// The file name the binary is installed under.
pub fn target_bin_filename(tool: &Tool, os: &str) -> (r: String)
    ensures
        r@ == crate::platform::platform_final_binary_spec(os@, tool.name@),
{
    let p = platform(os);
    p.final_binary_name(tool.name.as_str())
}

/// Turn a verified download body into the bytes to place on disk: the
/// checksum is enforced when declared, a direct artifact is used as it is,
/// and an archive gives up the first entry matching the platform's
/// candidate names.
pub fn prepare_artifact(tool: &Tool, url: &str, data: &[u8], os: &str, arch: &str) -> (r: Result<
    Vec<u8>,
    InstallError,
>)
    ensures
        (match tool.sha256 {
            Option::Some(x) => sha256_hex_of(data@) != x@ ==> (r matches Err(e) && e matches
            InstallError::ChecksumMismatch { expected: x2, got: g } && x2@ == x@ && g@
                == sha256_hex_of(data@)),
            Option::None => true,
        }),
        (match tool.sha256 {
            Option::Some(x) => sha256_hex_of(data@) == x@,
            Option::None => true,
        }) ==> match tool.kind {
            ToolKind::Direct => r matches Ok(bytes) && bytes@ == data@,
            ToolKind::Archive => extract_spec(
                data@,
                url@,
                crate::platform::platform_candidates_spec(os@, binary_rel_spec(*tool), arch@),
                binary_rel_spec(*tool),
                tool.name@,
                r,
            ),
        },
{
    match &tool.sha256 {
        Some(expected) => {
            match verify_sha256(data, expected.as_str()) {
                Ok(_) => {},
                Err(e) => {
                    return Err(e);
                },
            }
        },
        None => {},
    }
    match tool.kind {
        ToolKind::Direct => Ok(vstd::slice::slice_to_vec(data)),
        ToolKind::Archive => {
            let rel = binary_rel_name(tool);
            let p = platform(os);
            let cands = p.candidate_archive_entry_names(rel.as_str(), os, arch);
            proof {
                assert(rel@ == binary_rel_spec(*tool));
                assert(cands.deep_view() == crate::platform::platform_candidates_spec(
                    os@,
                    binary_rel_spec(*tool),
                    arch@,
                ));
            }
            extract_binary(data, url, &cands, rel.as_str(), tool.name.as_str())
        },
    }
}

/// Count of failed installs in a batch.
pub open spec fn failure_count(results: Seq<(String, bool)>) -> nat
    decreases results.len(),
{
    if results.len() == 0 {
        0
    } else {
        (if results[0].1 {
            0nat
        } else {
            1nat
        }) + failure_count(results.skip(1))
    }
}

/// Summarize a batch of per-tool results: success only when every tool
/// succeeded, otherwise the number of failures.
#[verifier::loop_isolation(false)]
pub fn summarize_parallel(results: &Vec<(String, bool)>) -> (r: Result<(), InstallError>)
    ensures
        match r {
            Ok(_) => failure_count(results@) == 0,
            Err(e) => failure_count(results@) > 0 && (e matches InstallError::ToolsFailed {
                count: c,
            } && c == failure_count(results@)),
        },
{
    let n = results.len();
    let mut failures: usize = 0;
    let mut i: usize = 0;
    proof {
        assert(results@.skip(0) =~= results@);
    }
    while i < n
        invariant
            n == results.len(),
            i <= n,
            failures <= i,
            failure_count(results@) == failures + failure_count(results@.skip(i as int)),
        decreases n - i,
    {
        proof {
            assert(results@.skip(i as int)[0] == results@[i as int]);
            assert(results@.skip(i as int).skip(1) =~= results@.skip(i + 1));
        }
        if !results[i].1 {
            failures += 1;
        }
        i += 1;
    }
    proof {
        assert(results@.skip(n as int) =~= Seq::<(String, bool)>::empty());
    }
    if failures == 0 {
        Ok(())
    } else {
        Err(InstallError::ToolsFailed { count: failures })
    }
}

// ---------------------------------------------------------------------------
// Lock writing and verification
// ---------------------------------------------------------------------------
/// One finding of lock verification.
#[derive(Debug)]
pub enum VerifyIssue {
    /// A configured tool has no lock entry.
    MissingFromLock { name: String },
    /// The locked version does not satisfy the configured range.
    RangeNotSatisfied { name: String, locked: String, config: String },
    /// The locked version differs from the configured exact version.
    VersionMismatch { name: String, locked: String, config: String },
    /// The recorded template renders differently from the configured tool.
    SourceMismatch { name: String },
    /// Manifest and lock declare different checksums.
    ChecksumIssue { name: String },
    /// The on-disk binary does not hash to the recorded digest.
    DigestMismatch { name: String },
}

/// The lock entry stored under a name, if any.
pub open spec fn lock_find(tools: Seq<(String, crate::lock::LockedEntry)>, name: Seq<char>)
    -> Option<crate::lock::LockedEntry>
    decreases tools.len(),
{
    if tools.len() == 0 {
        Option::None
    } else if tools[0].0@ == name {
        Option::Some(tools[0].1)
    } else {
        lock_find(tools.skip(1), name)
    }
}

/// The computed on-disk digest recorded for a name, if one was computed.
pub open spec fn recorded_for(ds: Seq<(String, Option<String>)>, name: Seq<char>) -> Option<String>
    decreases ds.len(),
{
    if ds.len() == 0 {
        Option::None
    } else if ds[0].0@ == name {
        ds[0].1
    } else {
        recorded_for(ds.skip(1), name)
    }
}

/// The findings for one configured tool against the lock: a missing entry;
/// a locked version outside the configured range, or unequal to the
/// configured exact version; a template that renders differently from the
/// configured tool at the locked version; checksum disagreement between
/// manifest and lock; and a digest disagreeing with the on-disk binary.
pub open spec fn tool_issues(
    t: Tool,
    lock_tools: Seq<(String, crate::lock::LockedEntry)>,
    os: Seq<char>,
    arch: Seq<char>,
    ds: Seq<(String, Option<String>)>,
) -> Seq<VerifyIssue> {
    match lock_find(lock_tools, t.name@) {
        Option::None => seq![VerifyIssue::MissingFromLock { name: t.name }],
        Option::Some(lt) => {
            let a: Seq<VerifyIssue> = if is_range_spec(t.version@) {
                if !range_satisfies_spec(t.version@, lt.version@) {
                    seq![
                        VerifyIssue::RangeNotSatisfied {
                            name: t.name,
                            locked: lt.version,
                            config: t.version,
                        },
                    ]
                } else {
                    Seq::empty()
                }
            } else if lt.version@ != t.version@ {
                seq![
                    VerifyIssue::VersionMismatch {
                        name: t.name,
                        locked: lt.version,
                        config: t.version,
                    },
                ]
            } else {
                Seq::empty()
            };
            let b: Seq<VerifyIssue> = match lt.source_template {
                Option::Some(tpl) => {
                    if render_spec(tpl@, lt.version@, os, arch) != render_source_spec(
                        Tool { version: lt.version, ..t },
                        os,
                        arch,
                    ) {
                        seq![VerifyIssue::SourceMismatch { name: t.name }]
                    } else {
                        Seq::empty()
                    }
                },
                Option::None => Seq::empty(),
            };
            let c: Seq<VerifyIssue> = match (t.sha256, lt.sha256) {
                (Option::Some(x), Option::Some(y)) => if x@ != y@ {
                    seq![VerifyIssue::ChecksumIssue { name: t.name }]
                } else {
                    Seq::empty()
                },
                _ => Seq::empty(),
            };
            let d: Seq<VerifyIssue> = match lt.digest {
                Option::Some(dg) => match recorded_for(ds, t.name@) {
                    Option::Some(actual) => if actual@ != dg@ {
                        seq![VerifyIssue::DigestMismatch { name: t.name }]
                    } else {
                        Seq::empty()
                    },
                    Option::None => Seq::empty(),
                },
                Option::None => Seq::empty(),
            };
            a + b + c + d
        },
    }
}

/// All findings over the configured tools, in order.
pub open spec fn verify_issues(
    tools: Seq<Tool>,
    lock_tools: Seq<(String, crate::lock::LockedEntry)>,
    os: Seq<char>,
    arch: Seq<char>,
    ds: Seq<(String, Option<String>)>,
) -> Seq<VerifyIssue>
    decreases tools.len(),
{
    if tools.len() == 0 {
        Seq::empty()
    } else {
        tool_issues(tools[0], lock_tools, os, arch, ds) + verify_issues(
            tools.skip(1),
            lock_tools,
            os,
            arch,
            ds,
        )
    }
}

/// The lock names that the manifest does not configure, in lock order.
pub open spec fn extra_lock_names(
    lock_tools: Seq<(String, crate::lock::LockedEntry)>,
    tools: Seq<Tool>,
) -> Seq<String>
    decreases lock_tools.len(),
{
    if lock_tools.len() == 0 {
        Seq::empty()
    } else {
        let rest = extra_lock_names(lock_tools.skip(1), tools);
        if crate::ops::cfg_find(tools, lock_tools[0].0@) is None {
            seq![lock_tools[0].0] + rest
        } else {
            rest
        }
    }
}

/// Find a lock entry by name.
#[verifier::loop_isolation(false)]
fn lock_find_exec<'a>(
    tools: &'a Vec<(String, crate::lock::LockedEntry)>,
    name: &str,
) -> (r: Option<&'a crate::lock::LockedEntry>)
    ensures
        match r {
            Some(lt) => lock_find(tools@, name@) == Option::Some(*lt),
            None => lock_find(tools@, name@) is None,
        },
{
    let ghost dv = tools@;
    let n = tools.len();
    let mut i: usize = 0;
    proof {
        assert(dv.skip(0) =~= dv);
    }
    while i < n
        invariant
            n == tools.len(),
            i <= n,
            lock_find(dv, name@) == lock_find(dv.skip(i as int), name@),
        decreases n - i,
    {
        proof {
            assert(dv.skip(i as int)[0] == dv[i as int]);
            assert(dv.skip(i as int).skip(1) =~= dv.skip(i + 1));
        }
        if text::str_eq(tools[i].0.as_str(), name) {
            return Some(&tools[i].1);
        }
        i += 1;
    }
    proof {
        assert(dv.skip(n as int) =~= Seq::<(String, crate::lock::LockedEntry)>::empty());
    }
    None
}

/// Find the computed digest recorded for a name.
#[verifier::loop_isolation(false)]
fn recorded_for_exec(ds: &Vec<(String, Option<String>)>, name: &str) -> (r: Option<String>)
    ensures
        match r {
            Some(d) => recorded_for(ds@, name@) matches Option::Some(w) && w@ == d@,
            None => recorded_for(ds@, name@) is None,
        },
{
    let ghost dv = ds@;
    let n = ds.len();
    let mut i: usize = 0;
    proof {
        assert(dv.skip(0) =~= dv);
    }
    while i < n
        invariant
            n == ds.len(),
            i <= n,
            recorded_for(dv, name@) == recorded_for(dv.skip(i as int), name@),
        decreases n - i,
    {
        proof {
            assert(dv.skip(i as int)[0] == dv[i as int]);
            assert(dv.skip(i as int).skip(1) =~= dv.skip(i + 1));
        }
        if text::str_eq(ds[i].0.as_str(), name) {
            return match &ds[i].1 {
                Some(d) => Some(d.clone()),
                None => None,
            };
        }
        i += 1;
    }
    proof {
        assert(dv.skip(n as int) =~= Seq::<(String, Option<String>)>::empty());
    }
    None
}

/// Compare a manifest against a loaded lock and the computed on-disk
/// digests: the findings in manifest order, and the lock's extra names.
#[verifier::loop_isolation(false)]
#[verifier::rlimit(60)]
pub fn verify_lockfile(
    cfg: &TlkConfig,
    lock: &crate::lock::LockFile,
    os: &str,
    arch: &str,
    digests: &Vec<(String, Option<String>)>,
) -> (r: (Vec<VerifyIssue>, Vec<String>))
    ensures
        r.0@ == verify_issues(cfg.tools@, lock.tools@, os@, arch@, digests@),
        r.1@ == extra_lock_names(lock.tools@, cfg.tools@),
{
    let ghost tv = cfg.tools@;
    let ghost lv = lock.tools@;
    let mut issues: Vec<VerifyIssue> = Vec::new();
    let n = cfg.tools.len();
    let mut i: usize = 0;
    proof {
        assert(tv.skip(0) =~= tv);
        assert(issues@ =~= Seq::<VerifyIssue>::empty());
    }
    while i < n
        invariant
            n == cfg.tools.len(),
            i <= n,
            tv == cfg.tools@,
            lv == lock.tools@,
            issues@ + verify_issues(tv.skip(i as int), lv, os@, arch@, digests@) == verify_issues(
                tv,
                lv,
                os@,
                arch@,
                digests@,
            ),
        decreases n - i,
    {
        proof {
            assert(tv.skip(i as int)[0] == tv[i as int]);
            assert(tv.skip(i as int).skip(1) =~= tv.skip(i + 1));
        }
        let t = &cfg.tools[i];
        let ghost before = issues@;
        let ghost expected_here = tool_issues(tv[i as int], lv, os@, arch@, digests@);
        match lock_find_exec(&lock.tools, t.name.as_str()) {
            None => {
                issues.push(VerifyIssue::MissingFromLock { name: t.name.clone() });
                proof {
                    assert(issues@ =~= before + expected_here);
                }
            },
            Some(lt) => {
                if is_range(t.version.as_str()) {
                    if !range_satisfies(t.version.as_str(), lt.version.as_str()) {
                        issues.push(
                            VerifyIssue::RangeNotSatisfied {
                                name: t.name.clone(),
                                locked: lt.version.clone(),
                                config: t.version.clone(),
                            },
                        );
                    }
                } else if !text::str_eq(lt.version.as_str(), t.version.as_str()) {
                    issues.push(
                        VerifyIssue::VersionMismatch {
                            name: t.name.clone(),
                            locked: lt.version.clone(),
                            config: t.version.clone(),
                        },
                    );
                }
                match &lt.source_template {
                    Some(tpl) => {
                        let expected = render_template(
                            tpl.as_str(),
                            lt.version.as_str(),
                            os,
                            arch,
                        );
                        let mut t2 = t.duplicate();
                        t2.version = lt.version.clone();
                        proof {
                            assert(t2 == Tool { version: lt.version, ..tv[i as int] });
                        }
                        let rendered = render_source(&t2, os, arch);
                        if !text::str_eq(expected.as_str(), rendered.as_str()) {
                            issues.push(VerifyIssue::SourceMismatch { name: t.name.clone() });
                        }
                    },
                    None => {},
                }
                match (&t.sha256, &lt.sha256) {
                    (Some(x), Some(y)) => {
                        if !text::str_eq(x.as_str(), y.as_str()) {
                            issues.push(VerifyIssue::ChecksumIssue { name: t.name.clone() });
                        }
                    },
                    _ => {},
                }
                match &lt.digest {
                    Some(dg) => {
                        match recorded_for_exec(digests, t.name.as_str()) {
                            Some(actual) => {
                                if !text::str_eq(actual.as_str(), dg.as_str()) {
                                    issues.push(
                                        VerifyIssue::DigestMismatch { name: t.name.clone() },
                                    );
                                }
                            },
                            None => {},
                        }
                    },
                    None => {},
                }
                proof {
                    assert(issues@ =~= before + expected_here);
                }
            },
        }
        i += 1;
    }
    proof {
        assert(tv.skip(n as int) =~= Seq::<Tool>::empty());
        assert(issues@ =~= verify_issues(tv, lv, os@, arch@, digests@));
    }
    let mut extras: Vec<String> = Vec::new();
    let m = lock.tools.len();
    let mut j: usize = 0;
    proof {
        assert(lv.skip(0) =~= lv);
        assert(extras@ =~= Seq::<String>::empty());
    }
    while j < m
        invariant
            m == lock.tools.len(),
            j <= m,
            lv == lock.tools@,
            tv == cfg.tools@,
            extras@ + extra_lock_names(lv.skip(j as int), tv) == extra_lock_names(lv, tv),
        decreases m - j,
    {
        proof {
            assert(lv.skip(j as int)[0] == lv[j as int]);
            assert(lv.skip(j as int).skip(1) =~= lv.skip(j + 1));
        }
        let ghost before = extras@;
        match crate::ops::find_tool(cfg, lock.tools[j].0.as_str()) {
            Some(_) => {},
            None => {
                extras.push(lock.tools[j].0.clone());
                proof {
                    assert(extras@ =~= before + seq![lv[j as int].0]);
                }
            },
        }
        j += 1;
    }
    proof {
        assert(lv.skip(m as int) =~= Seq::<(String, crate::lock::LockedEntry)>::empty());
        assert(extras@ =~= extra_lock_names(lv, tv));
    }
    (issues, extras)
}

/// If verification reports nothing, then every configured tool stands in
/// the lock, and its locked version satisfies the configured range, or
/// equals the configured version exactly when the manifest pins one.
pub proof fn lemma_verify_satisfaction(
    tools: Seq<Tool>,
    lock_tools: Seq<(String, crate::lock::LockedEntry)>,
    os: Seq<char>,
    arch: Seq<char>,
    ds: Seq<(String, Option<String>)>,
)
    requires
        verify_issues(tools, lock_tools, os, arch, ds).len() == 0,
    ensures
        forall|i: int|
            0 <= i < tools.len() ==> (lock_find(lock_tools, (#[trigger] tools[i]).name@) matches
            Option::Some(lt) && (if is_range_spec(tools[i].version@) {
                range_satisfies_spec(tools[i].version@, lt.version@)
            } else {
                lt.version@ == tools[i].version@
            })),
    decreases tools.len(),
{
    if tools.len() > 0 {
        assert(verify_issues(tools, lock_tools, os, arch, ds) == tool_issues(
            tools[0],
            lock_tools,
            os,
            arch,
            ds,
        ) + verify_issues(tools.skip(1), lock_tools, os, arch, ds));
        lemma_verify_satisfaction(tools.skip(1), lock_tools, os, arch, ds);
        assert forall|i: int| 0 <= i < tools.len() implies (lock_find(
            lock_tools,
            (#[trigger] tools[i]).name@,
        ) matches Option::Some(lt) && (if is_range_spec(tools[i].version@) {
            range_satisfies_spec(tools[i].version@, lt.version@)
        } else {
            lt.version@ == tools[i].version@
        })) by {
            if i == 0 {
                assert(tool_issues(tools[0], lock_tools, os, arch, ds).len() == 0);
            } else {
                assert(tools.skip(1)[i - 1] == tools[i]);
            }
        }
    }
}

/// The `(version, requested)` pair the lock writer records for one tool:
/// the resolver's pick with the manifest range remembered when a resolution
/// was performed for a range spec, else the normalized pair.
pub open spec fn written_version_spec(vtext: Seq<char>, resolved: Option<String>) -> (
    Seq<char>,
    Option<Seq<char>>,
) {
    match resolved {
        Option::Some(v) => if is_range_spec(vtext) {
            (v@, Option::Some(vtext))
        } else {
            normalize_version_spec(vtext)
        },
        Option::None => normalize_version_spec(vtext),
    }
}

/// The cross-platform sources matrix stands with its six fixed keys and
/// rendered URLs exactly when the template names both `{os}` and `{arch}`.
pub open spec fn sources_matrix_ok(
    tpl: Seq<char>,
    exact: Seq<char>,
    sources: Option<Vec<(String, String)>>,
) -> bool {
    if text::contains_spec(tpl, "{os}"@) && text::contains_spec(tpl, "{arch}"@) {
        sources matches Option::Some(m) && m@.len() == 6 && m@[0].0@ == "linux-amd64"@ && m@[0].1@
            == render_spec(tpl, exact, "linux"@, "amd64"@) && m@[1].0@ == "linux-arm64"@
            && m@[1].1@ == render_spec(tpl, exact, "linux"@, "arm64"@) && m@[2].0@
            == "darwin-amd64"@ && m@[2].1@ == render_spec(tpl, exact, "darwin"@, "amd64"@)
            && m@[3].0@ == "darwin-arm64"@ && m@[3].1@ == render_spec(
            tpl,
            exact,
            "darwin"@,
            "arm64"@,
        ) && m@[4].0@ == "windows-amd64"@ && m@[4].1@ == render_spec(
            tpl,
            exact,
            "windows"@,
            "amd64"@,
        ) && m@[5].0@ == "windows-arm64"@ && m@[5].1@ == render_spec(
            tpl,
            exact,
            "windows"@,
            "arm64"@,
        )
    } else {
        sources is None
    }
}

/// One written lock entry against its manifest tool: the written version
/// pair, the effective template, the URL rendered from it at the written
/// version and platform-adjusted, the host platform key, the manifest
/// checksum, the recorded digest, and the sources matrix exactly when the
/// template names both `{os}` and `{arch}`.
pub open spec fn written_entry_ok(
    t: Tool,
    e: crate::lock::LockedEntry,
    ds: Seq<(String, Option<String>)>,
    rs: Seq<(String, Option<String>)>,
    os: Seq<char>,
    arch: Seq<char>,
) -> bool {
    let tpl = effective_template_spec(t, os, arch);
    let pair = written_version_spec(t.version@, recorded_for(rs, t.name@));
    &&& e.version@ == pair.0
    &&& (match e.requested_version {
        Option::Some(q) => pair.1 == Option::Some(q@),
        Option::None => pair.1 is None,
    })
    &&& e.source@ == platform_adjust_spec(os, render_spec(tpl, pair.0, os, arch))
    &&& (e.source_template matches Option::Some(tq) && tq@ == tpl)
    &&& (e.platform matches Option::Some(p) && p@ == os + "-"@ + arch)
    &&& e.sha256 == t.sha256
    &&& (match (e.digest, recorded_for(ds, t.name@)) {
        (Option::Some(a), Option::Some(b)) => a@ == b@,
        (Option::None, Option::None) => true,
        _ => false,
    })
    &&& sources_matrix_ok(tpl, pair.0, e.sources)
}

/// The manifest's tools with each resolved range's version replaced by the
/// resolver's pick, every other field kept.
#[verifier::loop_isolation(false)]
pub fn apply_resolutions(cfg: &TlkConfig, resolutions: &Vec<(String, Option<String>)>) -> (r: Vec<
    Tool,
>)
    ensures
        r.len() == cfg.tools.len(),
        forall|i: int|
            0 <= i < r@.len() ==> {
                let t = cfg.tools@[i];
                let u = #[trigger] r@[i];
                &&& u.version@ == (match recorded_for(resolutions@, t.name@) {
                    Option::Some(v) => if is_range_spec(t.version@) {
                        v@
                    } else {
                        t.version@
                    },
                    Option::None => t.version@,
                })
                &&& u.name == t.name
                &&& u.kind == t.kind
                &&& u.source == t.source
                &&& u.sha256 == t.sha256
                &&& u.binary == t.binary
                &&& u.install_dir == t.install_dir
                &&& u.per_os == t.per_os
                &&& u.per_os_arch == t.per_os_arch
            },
{
    let mut out: Vec<Tool> = Vec::new();
    let n = cfg.tools.len();
    let mut i: usize = 0;
    while i < n
        invariant
            n == cfg.tools.len(),
            i <= n,
            out.len() == i,
            forall|j: int|
                0 <= j < i ==> {
                    let t = cfg.tools@[j];
                    let u = #[trigger] out@[j];
                    &&& u.version@ == (match recorded_for(resolutions@, t.name@) {
                        Option::Some(v) => if is_range_spec(t.version@) {
                            v@
                        } else {
                            t.version@
                        },
                        Option::None => t.version@,
                    })
                    &&& u.name == t.name
                    &&& u.kind == t.kind
                    &&& u.source == t.source
                    &&& u.sha256 == t.sha256
                    &&& u.binary == t.binary
                    &&& u.install_dir == t.install_dir
                    &&& u.per_os == t.per_os
                    &&& u.per_os_arch == t.per_os_arch
                },
        decreases n - i,
    {
        let t = &cfg.tools[i];
        let mut u = t.duplicate();
        match recorded_for_exec(resolutions, t.name.as_str()) {
            Some(v) => {
                if is_range(t.version.as_str()) {
                    u.version = v;
                }
            },
            None => {},
        }
        out.push(u);
        i += 1;
    }
    out
}

/// Build the lock entries for a manifest: one entry per tool in manifest
/// order, each carrying the written version pair (the resolver's pick for a
/// resolved range, else the normalized text), the effective template, the
/// rendered URL, the platform key, the checksum, the digest and the sources
/// matrix.
#[verifier::loop_isolation(false)]
pub fn write_lockfile(
    cfg: &TlkConfig,
    digests: &Vec<(String, Option<String>)>,
    resolutions: &Vec<(String, Option<String>)>,
    os: &str,
    arch: &str,
) -> (r: Vec<(String, crate::lock::LockedEntry)>)
    ensures
        r.len() == cfg.tools.len(),
        forall|i: int|
            0 <= i < r@.len() ==> (#[trigger] r@[i]).0@ == cfg.tools@[i].name@
                && written_entry_ok(cfg.tools@[i], r@[i].1, digests@, resolutions@, os@, arch@),
{
    let mut out: Vec<(String, crate::lock::LockedEntry)> = Vec::new();
    let n = cfg.tools.len();
    let mut i: usize = 0;
    while i < n
        invariant
            n == cfg.tools.len(),
            i <= n,
            out.len() == i,
            forall|j: int|
                0 <= j < i ==> (#[trigger] out@[j]).0@ == cfg.tools@[j].name@ && written_entry_ok(
                    cfg.tools@[j],
                    out@[j].1,
                    digests@,
                    resolutions@,
                    os@,
                    arch@,
                ),
        decreases n - i,
    {
        let t = &cfg.tools[i];
        let ghost tv = cfg.tools@[i as int];
        let digest = recorded_for_exec(digests, t.name.as_str());
        let tpl = t.effective_source_template(os, arch);
        let (exact, requested): (String, Option<String>) = match recorded_for_exec(
            resolutions,
            t.name.as_str(),
        ) {
            Some(v) => {
                if is_range(t.version.as_str()) {
                    (v, Some(t.version.clone()))
                } else {
                    normalize_version(t.version.as_str())
                }
            },
            None => normalize_version(t.version.as_str()),
        };
        proof {
            let pair = written_version_spec(tv.version@, recorded_for(resolutions@, tv.name@));
            assert(exact@ == pair.0);
            assert(match requested {
                Option::Some(q) => pair.1 == Option::Some(q@),
                Option::None => pair.1 is None,
            });
        }
        let mut t2 = t.duplicate();
        t2.version = exact.clone();
        let rendered = render_source(&t2, os, arch);
        proof {
            assert(effective_template_spec(t2, os@, arch@) == effective_template_spec(
                tv,
                os@,
                arch@,
            ));
            assert(rendered@ == platform_adjust_spec(
                os@,
                render_spec(effective_template_spec(tv, os@, arch@), exact@, os@, arch@),
            ));
        }
        let entry = crate::lock::to_locked_entry(
            t.name.as_str(),
            exact.as_str(),
            match &requested {
                Some(q) => Some(q.as_str()),
                None => None,
            },
            rendered.as_str(),
            tpl.as_str(),
            &t.sha256,
            digest,
            os,
            arch,
        );
        out.push(entry);
        proof {
            assert(written_entry_ok(tv, out@[i as int].1, digests@, resolutions@, os@, arch@));
        }
        i += 1;
    }
    out
}

} // verus!

use sha2::Digest;
use sha2::Sha256;
use vstd::string::StrSliceExecFns;
use vstd::string::StringExecFns;
