//! Strict semantic versions: parsing, rendering, and precedence ordering.
//!
//! A version is `MAJOR.MINOR.PATCH` with optional dot-separated pre-release
//! and build identifier lists.  Numeric components reject leading zeros and
//! must fit in a `u64`.  Precedence follows the usual rules: the numeric
//! triple decides first; a version without pre-release identifiers is greater
//! than one with them; pre-release lists compare identifier by identifier,
//! numeric identifiers numerically and before alphanumeric ones, with a
//! shorter prefix list being smaller.  Build identifiers never affect
//! precedence.
use vstd::prelude::*;

use crate::text;

verus! {

/// One managed version value.
#[derive(Debug)]
pub struct Version {
    pub major: u64,
    pub minor: u64,
    pub patch: u64,
    pub pre: Vec<String>,
    pub build: Vec<String>,
}

/// The mathematical model of a `Version`.
pub struct VersionView {
    pub major: int,
    pub minor: int,
    pub patch: int,
    pub pre: Seq<Seq<char>>,
    pub build: Seq<Seq<char>>,
}

impl View for Version {
    type V = VersionView;

    open spec fn view(&self) -> VersionView {
        VersionView {
            major: self.major as int,
            minor: self.minor as int,
            patch: self.patch as int,
            pre: self.pre.deep_view(),
            build: self.build.deep_view(),
        }
    }
}

impl DeepView for Version {
    type V = VersionView;

    open spec fn deep_view(&self) -> VersionView {
        self.view()
    }
}

/// A character allowed in a pre-release or build identifier.
pub open spec fn ident_char(c: char) -> bool {
    text::is_digit(c) || (97 <= c as u32 <= 122) || (65 <= c as u32 <= 90) || c == '-'
}

/// A non-empty identifier over the allowed alphabet.
pub open spec fn ident_ok(p: Seq<char>) -> bool {
    p.len() > 0 && forall|i: int| 0 <= i < p.len() ==> ident_char(p[i])
}

/// No superfluous leading zero (for a non-empty numeral).
pub open spec fn no_leading_zero(p: Seq<char>) -> bool {
    p.len() == 1 || p[0] != '0'
}

/// A pre-release identifier: numeric ones must not have leading zeros.
pub open spec fn pre_ident_ok(p: Seq<char>) -> bool {
    ident_ok(p) && (text::all_digits(p) ==> no_leading_zero(p))
}

/// A numeric version component.
pub open spec fn num_ok(p: Seq<char>) -> bool {
    p.len() > 0 && text::all_digits(p) && no_leading_zero(p) && text::dec_value(p) <= u64::MAX
}

/// Every entry is a valid pre-release identifier.
pub open spec fn pre_idents_ok(pre: Seq<Seq<char>>) -> bool {
    forall|i: int| 0 <= i < pre.len() ==> pre_ident_ok(#[trigger] pre[i])
}

/// Every entry is a valid build identifier.
pub open spec fn build_idents_ok(build: Seq<Seq<char>>) -> bool {
    forall|i: int| 0 <= i < build.len() ==> ident_ok(#[trigger] build[i])
}

/// The parse of `s` as a strict semantic version, if it is one.
pub open spec fn parse_version_view(s: Seq<char>) -> Option<VersionView> {
    let ip = text::first_match(s, seq!['+']);
    let head = if ip >= 0 {
        s.take(ip)
    } else {
        s
    };
    let bpart = if ip >= 0 {
        Option::Some(s.skip(ip + 1))
    } else {
        Option::None
    };
    let ih = text::first_match(head, seq!['-']);
    let core = if ih >= 0 {
        head.take(ih)
    } else {
        head
    };
    let ppart = if ih >= 0 {
        Option::Some(head.skip(ih + 1))
    } else {
        Option::None
    };
    let nums = text::split_spec(core, seq!['.']);
    let pre = match ppart {
        Option::Some(p) => text::split_spec(p, seq!['.']),
        Option::None => Seq::empty(),
    };
    let build = match bpart {
        Option::Some(b) => text::split_spec(b, seq!['.']),
        Option::None => Seq::empty(),
    };
    if nums.len() == 3 && num_ok(nums[0]) && num_ok(nums[1]) && num_ok(nums[2]) && pre_idents_ok(
        pre,
    ) && build_idents_ok(build) {
        Option::Some(
            VersionView {
                major: text::dec_value(nums[0]),
                minor: text::dec_value(nums[1]),
                patch: text::dec_value(nums[2]),
                pre: pre,
                build: build,
            },
        )
    } else {
        Option::None
    }
}

/// The canonical text of a version.
pub open spec fn version_chars(v: VersionView) -> Seq<char> {
    text::dec_str(v.major) + seq!['.'] + text::dec_str(v.minor) + seq!['.'] + text::dec_str(
        v.patch,
    ) + (if v.pre.len() > 0 {
        seq!['-'] + text::join_spec(v.pre, seq!['.'])
    } else {
        Seq::empty()
    }) + (if v.build.len() > 0 {
        seq!['+'] + text::join_spec(v.build, seq!['.'])
    } else {
        Seq::empty()
    })
}

/// Check that every character of `p` may stand in an identifier.
pub fn ident_chars_ok(p: &str) -> (r: bool)
    ensures
        r == (forall|i: int| 0 <= i < p@.len() ==> ident_char(p@[i])),
{
    let n = p.unicode_len();
    let mut i: usize = 0;
    while i < n
        invariant
            n == p@.len(),
            i <= n,
            forall|j: int| 0 <= j < i ==> ident_char(p@[j]),
        decreases n - i,
    {
        let c = p.get_char(i);
        let u = c as u32;
        if !(48 <= u && u <= 57) && !(97 <= u && u <= 122) && !(65 <= u && u <= 90) && c != '-' {
            return false;
        }
        i += 1;
    }
    true
}

/// Check that every character of `p` is a digit.
pub fn all_digits_exec(p: &str) -> (r: bool)
    ensures
        r == text::all_digits(p@),
{
    let n = p.unicode_len();
    let mut i: usize = 0;
    while i < n
        invariant
            n == p@.len(),
            i <= n,
            forall|j: int| 0 <= j < i ==> text::is_digit(p@[j]),
        decreases n - i,
    {
        let c = p.get_char(i);
        let u = c as u32;
        if !(48 <= u && u <= 57) {
            return false;
        }
        i += 1;
    }
    true
}

pub fn no_leading_zero_exec(p: &str) -> (r: bool)
    requires
        p@.len() > 0,
    ensures
        r == no_leading_zero(p@),
{
    p.unicode_len() == 1 || p.get_char(0) != '0'
}

/// Parse a numeric version component.
pub fn parse_num(p: &str) -> (r: Option<u64>)
    ensures
        match r {
            Some(v) => num_ok(p@) && v == text::dec_value(p@),
            None => !num_ok(p@),
        },
{
    match text::parse_u64(p) {
        Some(v) => {
            if no_leading_zero_exec(p) {
                Some(v)
            } else {
                None
            }
        },
        None => None,
    }
}

/// Parse a strict semantic version.
#[verifier::loop_isolation(false)]
pub fn parse_version(s: &str) -> (r: Option<Version>)
    ensures
        match r {
            Some(v) => parse_version_view(s@) == Option::Some(v@),
            None => parse_version_view(s@) is None,
        },
{
    let n = s.unicode_len();
    proof {
        reveal_strlit("+");
        reveal_strlit("-");
        reveal_strlit(".");
        assert("+"@ =~= seq!['+']);
        assert("-"@ =~= seq!['-']);
        assert("."@ =~= seq!['.']);
    }
    let (head, bpart): (String, Option<String>) = match text::split_once_str(s, "+") {
        Some(p) => (p.0, Some(p.1)),
        None => (s.to_owned(), None),
    };
    proof {
        let ip = text::first_match(s@, seq!['+']);
        if bpart is Some {
            assert(head@ == s@.take(ip));
        } else {
            assert(head@ == s@);
        }
    }
    let (core, ppart): (String, Option<String>) = match text::split_once_str(head.as_str(), "-") {
        Some(p) => (p.0, Some(p.1)),
        None => (head.clone(), None),
    };
    proof {
        let ih = text::first_match(head@, seq!['-']);
        if ppart is Some {
            assert(core@ == head@.take(ih));
        } else {
            assert(core@ == head@);
        }
    }
    let nums = text::split_all(core.as_str(), ".");
    if nums.len() != 3 {
        return None;
    }
    let ghost nums_spec = text::split_spec(core@, seq!['.']);
    proof {
        assert(nums.deep_view() == nums_spec);
        assert(nums[0]@ == nums_spec[0]);
        assert(nums[1]@ == nums_spec[1]);
        assert(nums[2]@ == nums_spec[2]);
    }
    let major = match parse_num(nums[0].as_str()) {
        Some(v) => v,
        None => {
            return None;
        },
    };
    let minor = match parse_num(nums[1].as_str()) {
        Some(v) => v,
        None => {
            return None;
        },
    };
    let patch = match parse_num(nums[2].as_str()) {
        Some(v) => v,
        None => {
            return None;
        },
    };
    let mut pre: Vec<String> = Vec::new();
    match &ppart {
        Some(p) => {
            let parts = text::split_all(p.as_str(), ".");
            let m = parts.len();
            let mut i: usize = 0;
            while i < m
                invariant
                    m == parts.len(),
                    i <= m,
                    forall|j: int| 0 <= j < i ==> pre_ident_ok(parts.deep_view()[j]),
                decreases m - i,
            {
                let part = &parts[i];
                proof {
                    assert(parts[i as int]@ == parts.deep_view()[i as int]);
                    let ih = text::first_match(head@, seq!['-']);
                    assert(ih >= 0);
                    assert(p@ == head@.skip(ih + 1));
                    assert(parts.deep_view() == text::split_spec(p@, seq!['.']));
                }
                if part.as_str().unicode_len() == 0 {
                    proof {
                        assert(!pre_idents_ok(parts.deep_view()));
                    }
                    return None;
                }
                if !ident_chars_ok(part.as_str()) {
                    proof {
                        assert(!pre_idents_ok(parts.deep_view()));
                    }
                    return None;
                }
                if all_digits_exec(part.as_str()) && !no_leading_zero_exec(part.as_str()) {
                    proof {
                        assert(!pre_idents_ok(parts.deep_view()));
                    }
                    return None;
                }
                i += 1;
            }
            pre = parts;
        },
        None => {},
    }
    let mut build: Vec<String> = Vec::new();
    match &bpart {
        Some(b) => {
            let parts = text::split_all(b.as_str(), ".");
            let m = parts.len();
            let mut i: usize = 0;
            while i < m
                invariant
                    m == parts.len(),
                    i <= m,
                    forall|j: int| 0 <= j < i ==> ident_ok(parts.deep_view()[j]),
                decreases m - i,
            {
                let part = &parts[i];
                proof {
                    assert(parts[i as int]@ == parts.deep_view()[i as int]);
                }
                if part.as_str().unicode_len() == 0 {
                    proof {
                        assert(!build_idents_ok(parts.deep_view()));
                    }
                    return None;
                }
                if !ident_chars_ok(part.as_str()) {
                    proof {
                        assert(!build_idents_ok(parts.deep_view()));
                    }
                    return None;
                }
                i += 1;
            }
            build = parts;
        },
        None => {},
    }
    let v = Version { major, minor, patch, pre, build };
    proof {
        assert(v@.pre =~~= (match parse_version_view(s@) {
            Option::Some(w) => w.pre,
            Option::None => Seq::empty(),
        }));
        assert(v@.build =~~= (match parse_version_view(s@) {
            Option::Some(w) => w.build,
            Option::None => Seq::empty(),
        }));
        assert(parse_version_view(s@) == Option::Some(v@));
    }
    Some(v)
}

/// Render a version as its canonical text.
pub fn version_string(v: &Version) -> (r: String)
    ensures
        r@ == version_chars(v@),
{
    let mut out = text::u64_to_string(v.major);
    out.append(".");
    out.append(text::u64_to_string(v.minor).as_str());
    out.append(".");
    out.append(text::u64_to_string(v.patch).as_str());
    proof {
        reveal_strlit(".");
        reveal_strlit("-");
        reveal_strlit("+");
        assert("."@ =~= seq!['.']);
        assert("-"@ =~= seq!['-']);
        assert("+"@ =~= seq!['+']);
    }
    if v.pre.len() > 0 {
        out.append("-");
        out.append(text::join_strings(&v.pre, ".").as_str());
    }
    if v.build.len() > 0 {
        out.append("+");
        out.append(text::join_strings(&v.build, ".").as_str());
    }
    proof {
        assert(out@ =~= version_chars(v@));
    }
    out
}

/// Duplicate a version value.
pub fn duplicate_version(v: &Version) -> (r: Version)
    ensures
        r@ == v@,
{
    let r = Version {
        major: v.major,
        minor: v.minor,
        patch: v.patch,
        pre: duplicate_strings(&v.pre),
        build: duplicate_strings(&v.build),
    };
    r
}

/// Duplicate a list of strings.
pub fn duplicate_strings(v: &Vec<String>) -> (r: Vec<String>)
    ensures
        r.deep_view() == v.deep_view(),
{
    let mut out: Vec<String> = Vec::new();
    let n = v.len();
    let mut i: usize = 0;
    while i < n
        invariant
            n == v.len(),
            i <= n,
            out.len() == i,
            forall|j: int| 0 <= j < i ==> out.deep_view()[j] == v.deep_view()[j],
        decreases n - i,
    {
        out.push(v[i].clone());
        i += 1;
    }
    proof {
        assert(out.deep_view() =~~= v.deep_view());
    }
    out
}

// ---------------------------------------------------------------------------
// Precedence ordering
// ---------------------------------------------------------------------------
/// Lexicographic order on ASCII text.
pub open spec fn lex_lt(a: Seq<char>, b: Seq<char>) -> bool
    decreases a.len(),
{
    if b.len() == 0 {
        false
    } else if a.len() == 0 {
        true
    } else if (a[0] as u32) < (b[0] as u32) {
        true
    } else if a[0] == b[0] {
        lex_lt(a.skip(1), b.skip(1))
    } else {
        false
    }
}

/// Order on single pre-release identifiers: numeric before alphanumeric,
/// numeric ones by value (equal length then lexicographic, sound because
/// numerals carry no leading zeros), alphanumeric ones lexicographically.
pub open spec fn ident_lt(a: Seq<char>, b: Seq<char>) -> bool {
    let an = text::all_digits(a);
    let bn = text::all_digits(b);
    if an && bn {
        a.len() < b.len() || (a.len() == b.len() && lex_lt(a, b))
    } else if an {
        true
    } else if bn {
        false
    } else {
        lex_lt(a, b)
    }
}

/// Order on identifier lists: element by element, a strict prefix first.
pub open spec fn idents_lt(a: Seq<Seq<char>>, b: Seq<Seq<char>>) -> bool
    decreases a.len(),
{
    if a.len() == 0 {
        b.len() > 0
    } else if b.len() == 0 {
        false
    } else if a[0] == b[0] {
        idents_lt(a.skip(1), b.skip(1))
    } else {
        ident_lt(a[0], b[0])
    }
}

/// Order on pre-release lists, where an empty list (no pre-release) is
/// greater than any non-empty one.
pub open spec fn pre_lt(a: Seq<Seq<char>>, b: Seq<Seq<char>>) -> bool {
    if a.len() == 0 {
        false
    } else if b.len() == 0 {
        true
    } else {
        idents_lt(a, b)
    }
}

/// Strict order on the numeric triple alone.
pub open spec fn triple_lt(a: VersionView, b: VersionView) -> bool {
    a.major < b.major || (a.major == b.major && (a.minor < b.minor || (a.minor == b.minor
        && a.patch < b.patch)))
}

/// Equal numeric triples.
pub open spec fn triple_eq(a: VersionView, b: VersionView) -> bool {
    a.major == b.major && a.minor == b.minor && a.patch == b.patch
}

/// Full precedence order.
pub open spec fn version_lt(a: VersionView, b: VersionView) -> bool {
    triple_lt(a, b) || (triple_eq(a, b) && pre_lt(a.pre, b.pre))
}

/// Weak precedence order: less than, or equal but for build identifiers.
pub open spec fn version_le(a: VersionView, b: VersionView) -> bool {
    version_lt(a, b) || (triple_eq(a, b) && a.pre == b.pre)
}

fn lex_lt_exec(a: &str, b: &str) -> (r: bool)
    ensures
        r == lex_lt(a@, b@),
{
    let an = a.unicode_len();
    let bn = b.unicode_len();
    let mut i: usize = 0;
    proof {
        assert(a@.skip(0) =~= a@);
        assert(b@.skip(0) =~= b@);
    }
    loop
        invariant
            an == a@.len(),
            bn == b@.len(),
            i <= an,
            i <= bn,
            lex_lt(a@, b@) == lex_lt(a@.skip(i as int), b@.skip(i as int)),
        decreases an - i,
    {
        let ghost ra = a@.skip(i as int);
        let ghost rb = b@.skip(i as int);
        if i >= bn {
            proof {
                assert(rb.len() == 0);
            }
            return false;
        }
        if i >= an {
            proof {
                assert(ra.len() == 0 && rb.len() > 0);
            }
            return true;
        }
        let ca = a.get_char(i);
        let cb = b.get_char(i);
        proof {
            assert(ra[0] == a@[i as int]);
            assert(rb[0] == b@[i as int]);
            assert(ra.skip(1) =~= a@.skip(i + 1));
            assert(rb.skip(1) =~= b@.skip(i + 1));
        }
        if (ca as u32) < (cb as u32) {
            return true;
        }
        if ca != cb {
            return false;
        }
        i += 1;
    }
}

fn ident_lt_exec(a: &str, b: &str) -> (r: bool)
    ensures
        r == ident_lt(a@, b@),
{
    let an = all_digits_exec(a);
    let bn = all_digits_exec(b);
    if an && bn {
        a.unicode_len() < b.unicode_len() || (a.unicode_len() == b.unicode_len() && lex_lt_exec(
            a,
            b,
        ))
    } else if an {
        true
    } else if bn {
        false
    } else {
        lex_lt_exec(a, b)
    }
}

pub fn idents_lt_exec(a: &Vec<String>, b: &Vec<String>) -> (r: bool)
    ensures
        r == idents_lt(a.deep_view(), b.deep_view()),
{
    let an = a.len();
    let bn = b.len();
    let mut i: usize = 0;
    proof {
        assert(a.deep_view().skip(0) =~= a.deep_view());
        assert(b.deep_view().skip(0) =~= b.deep_view());
    }
    loop
        invariant
            an == a.len(),
            bn == b.len(),
            i <= an,
            i <= bn,
            idents_lt(a.deep_view(), b.deep_view()) == idents_lt(
                a.deep_view().skip(i as int),
                b.deep_view().skip(i as int),
            ),
        decreases an - i,
    {
        let ghost ra = a.deep_view().skip(i as int);
        let ghost rb = b.deep_view().skip(i as int);
        if i >= an {
            proof {
                assert(ra.len() == 0);
            }
            return bn > an;
        }
        if i >= bn {
            proof {
                assert(rb.len() == 0 && ra.len() > 0);
            }
            return false;
        }
        proof {
            assert(ra[0] == a.deep_view()[i as int]);
            assert(rb[0] == b.deep_view()[i as int]);
            assert(a[i as int]@ == a.deep_view()[i as int]);
            assert(b[i as int]@ == b.deep_view()[i as int]);
            assert(ra.skip(1) =~= a.deep_view().skip(i + 1));
            assert(rb.skip(1) =~= b.deep_view().skip(i + 1));
        }
        if !text::str_eq(a[i].as_str(), b[i].as_str()) {
            return ident_lt_exec(a[i].as_str(), b[i].as_str());
        }
        i += 1;
    }
}

/// Strict precedence comparison of two versions.
pub fn version_lt_exec(a: &Version, b: &Version) -> (r: bool)
    ensures
        r == version_lt(a@, b@),
{
    if a.major != b.major {
        return a.major < b.major;
    }
    if a.minor != b.minor {
        return a.minor < b.minor;
    }
    if a.patch != b.patch {
        return a.patch < b.patch;
    }
    if a.pre.len() == 0 {
        return false;
    }
    if b.pre.len() == 0 {
        return true;
    }
    idents_lt_exec(&a.pre, &b.pre)
}

} // verus!

use vstd::string::StrSliceExecFns;
use vstd::string::StringExecFns;
