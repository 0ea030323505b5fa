//! Version requirements: comparator lists such as `>=1.2 <1.30`, `^3.14.0`,
//! `~1.2.3`, `1.30.x`, parsed and matched against versions.
//!
//! A requirement text is a sequence of comparator tokens separated by spaces
//! or commas.  Each token is an optional operator (`=`, `>`, `>=`, `<`, `<=`,
//! `~`, `^`) followed by a partial version `MAJOR[.MINOR[.PATCH]][-PRE]`,
//! where `MINOR` or `PATCH` may be a wildcard (`*`, `x`, `X`).  A token that
//! is only a wildcard contributes no comparator at all, so `*` alone matches
//! every version without pre-release identifiers.  A bare full or partial
//! version is read as a caret requirement, except that a bare partial with a
//! wildcard pins the components it names exactly.  A version with pre-release
//! identifiers satisfies a requirement only if some comparator names the same
//! numeric triple together with a pre-release.
use vstd::prelude::*;

use crate::text;
use crate::version::{
    num_ok, pre_ident_ok, pre_idents_ok, pre_lt, Version, VersionView,
};

verus! {

/// Comparison operator of one comparator.
#[derive(PartialEq, Eq, Structural, Clone, Copy, Debug)]
pub enum ReqOp {
    Exact,
    Greater,
    GreaterEq,
    Less,
    LessEq,
    Tilde,
    Caret,
    Wildcard,
}

/// One comparator of a requirement.
pub struct Comparator {
    pub op: ReqOp,
    pub major: u64,
    pub minor: Option<u64>,
    pub patch: Option<u64>,
    pub pre: Vec<String>,
}

/// The mathematical model of a `Comparator`.
pub struct ComparatorView {
    pub op: ReqOp,
    pub major: int,
    pub minor: Option<int>,
    pub patch: Option<int>,
    pub pre: Seq<Seq<char>>,
}

impl View for Comparator {
    type V = ComparatorView;

    open spec fn view(&self) -> ComparatorView {
        ComparatorView {
            op: self.op,
            major: self.major as int,
            minor: match self.minor {
                Some(m) => Some(m as int),
                None => None,
            },
            patch: match self.patch {
                Some(p) => Some(p as int),
                None => None,
            },
            pre: self.pre.deep_view(),
        }
    }
}

impl DeepView for Comparator {
    type V = ComparatorView;

    open spec fn deep_view(&self) -> ComparatorView {
        self.view()
    }
}

// ---------------------------------------------------------------------------
// Matching
// ---------------------------------------------------------------------------
/// Pre-release list order, weakly: `a` not above `b`.
pub open spec fn pre_ge(a: Seq<Seq<char>>, b: Seq<Seq<char>>) -> bool {
    !pre_lt(a, b)
}

/// The version equals the comparator on every component the comparator names.
pub open spec fn matches_exact(c: ComparatorView, v: VersionView) -> bool {
    v.major == c.major && (match c.minor {
        Some(m) => v.minor == m,
        None => true,
    }) && (match c.patch {
        Some(p) => v.patch == p,
        None => true,
    }) && v.pre == c.pre
}

/// The version is strictly above the comparator's partial version.
pub open spec fn matches_greater(c: ComparatorView, v: VersionView) -> bool {
    if v.major != c.major {
        v.major > c.major
    } else {
        match c.minor {
            None => false,
            Some(m) => if v.minor != m {
                v.minor > m
            } else {
                match c.patch {
                    None => false,
                    Some(p) => if v.patch != p {
                        v.patch > p
                    } else {
                        pre_lt(c.pre, v.pre)
                    },
                }
            },
        }
    }
}

/// The version is strictly below the comparator's partial version.
pub open spec fn matches_less(c: ComparatorView, v: VersionView) -> bool {
    if v.major != c.major {
        v.major < c.major
    } else {
        match c.minor {
            None => false,
            Some(m) => if v.minor != m {
                v.minor < m
            } else {
                match c.patch {
                    None => false,
                    Some(p) => if v.patch != p {
                        v.patch < p
                    } else {
                        pre_lt(v.pre, c.pre)
                    },
                }
            },
        }
    }
}

/// Tilde: same major (and minor when named); the patch may grow.
pub open spec fn matches_tilde(c: ComparatorView, v: VersionView) -> bool {
    if v.major != c.major {
        false
    } else {
        match c.minor {
            None => true,
            Some(m) => if v.minor != m {
                false
            } else {
                match c.patch {
                    None => true,
                    Some(p) => if v.patch != p {
                        v.patch > p
                    } else {
                        pre_ge(v.pre, c.pre)
                    },
                }
            },
        }
    }
}

/// Caret: compatible growth below the next breaking version.
pub open spec fn matches_caret(c: ComparatorView, v: VersionView) -> bool {
    if v.major != c.major {
        false
    } else {
        match c.minor {
            None => true,
            Some(m) => match c.patch {
                None => if c.major > 0 {
                    v.minor >= m
                } else {
                    v.minor == m
                },
                Some(p) => if c.major > 0 {
                    if v.minor != m {
                        v.minor > m
                    } else if v.patch != p {
                        v.patch > p
                    } else {
                        pre_ge(v.pre, c.pre)
                    }
                } else if m > 0 {
                    if v.minor != m {
                        false
                    } else if v.patch != p {
                        v.patch > p
                    } else {
                        pre_ge(v.pre, c.pre)
                    }
                } else if v.minor != m || v.patch != p {
                    false
                } else {
                    pre_ge(v.pre, c.pre)
                },
            },
        }
    }
}

/// One comparator accepts the version.
pub open spec fn comparator_matches(c: ComparatorView, v: VersionView) -> bool {
    match c.op {
        ReqOp::Exact => matches_exact(c, v),
        ReqOp::Wildcard => matches_exact(c, v),
        ReqOp::Greater => matches_greater(c, v),
        ReqOp::GreaterEq => matches_exact(c, v) || matches_greater(c, v),
        ReqOp::Less => matches_less(c, v),
        ReqOp::LessEq => matches_exact(c, v) || matches_less(c, v),
        ReqOp::Tilde => matches_tilde(c, v),
        ReqOp::Caret => matches_caret(c, v),
    }
}

/// The comparator names the version's numeric triple and a pre-release, so
/// that pre-release versions of that triple are admitted.
pub open spec fn pre_compatible(c: ComparatorView, v: VersionView) -> bool {
    c.pre.len() > 0 && v.major == c.major && c.minor == Some(v.minor) && c.patch == Some(v.patch)
}

/// Every comparator accepts the version.
pub open spec fn all_comparators_match(req: Seq<ComparatorView>, v: VersionView) -> bool {
    forall|i: int| 0 <= i < req.len() ==> comparator_matches(#[trigger] req[i], v)
}

/// Some comparator admits this pre-release triple.
pub open spec fn some_pre_compatible(req: Seq<ComparatorView>, v: VersionView) -> bool {
    exists|i: int| 0 <= i < req.len() && pre_compatible(#[trigger] req[i], v)
}

/// The requirement accepts the version.
pub open spec fn req_matches(req: Seq<ComparatorView>, v: VersionView) -> bool {
    all_comparators_match(req, v) && (v.pre.len() > 0 ==> some_pre_compatible(req, v))
}

/// Exec mirror of `pre_lt`.
pub fn pre_lt_exec(a: &Vec<String>, b: &Vec<String>) -> (r: bool)
    ensures
        r == pre_lt(a.deep_view(), b.deep_view()),
{
    if a.len() == 0 {
        false
    } else if b.len() == 0 {
        true
    } else {
        crate::version::idents_lt_exec(a, b)
    }
}

pub fn eq_idents(a: &Vec<String>, b: &Vec<String>) -> (r: bool)
    ensures
        r == (a.deep_view() == b.deep_view()),
{
    let n = a.len();
    if n != b.len() {
        proof {
            assert(a.deep_view().len() != b.deep_view().len());
        }
        return false;
    }
    let mut i: usize = 0;
    while i < n
        invariant
            n == a.len() == b.len(),
            i <= n,
            forall|j: int| 0 <= j < i ==> a.deep_view()[j] == b.deep_view()[j],
        decreases n - i,
    {
        proof {
            assert(a[i as int]@ == a.deep_view()[i as int]);
            assert(b[i as int]@ == b.deep_view()[i as int]);
        }
        if !text::str_eq(a[i].as_str(), b[i].as_str()) {
            return false;
        }
        i += 1;
    }
    proof {
        assert(a.deep_view() =~= b.deep_view());
    }
    true
}

/// Whether one comparator accepts a version.
pub fn comparator_matches_exec(c: &Comparator, v: &Version) -> (r: bool)
    ensures
        r == comparator_matches(c@, v@),
{
    match c.op {
        ReqOp::Exact => matches_exact_exec(c, v),
        ReqOp::Wildcard => matches_exact_exec(c, v),
        ReqOp::Greater => matches_greater_exec(c, v),
        ReqOp::GreaterEq => matches_exact_exec(c, v) || matches_greater_exec(c, v),
        ReqOp::Less => matches_less_exec(c, v),
        ReqOp::LessEq => matches_exact_exec(c, v) || matches_less_exec(c, v),
        ReqOp::Tilde => matches_tilde_exec(c, v),
        ReqOp::Caret => matches_caret_exec(c, v),
    }
}

fn matches_exact_exec(c: &Comparator, v: &Version) -> (r: bool)
    ensures
        r == matches_exact(c@, v@),
{
    if v.major != c.major {
        return false;
    }
    match c.minor {
        Some(m) => if v.minor != m {
            return false;
        },
        None => {},
    }
    match c.patch {
        Some(p) => if v.patch != p {
            return false;
        },
        None => {},
    }
    eq_idents(&v.pre, &c.pre)
}

fn matches_greater_exec(c: &Comparator, v: &Version) -> (r: bool)
    ensures
        r == matches_greater(c@, v@),
{
    if v.major != c.major {
        return v.major > c.major;
    }
    match c.minor {
        None => false,
        Some(m) => {
            if v.minor != m {
                return v.minor > m;
            }
            match c.patch {
                None => false,
                Some(p) => {
                    if v.patch != p {
                        return v.patch > p;
                    }
                    pre_lt_exec(&c.pre, &v.pre)
                },
            }
        },
    }
}

fn matches_less_exec(c: &Comparator, v: &Version) -> (r: bool)
    ensures
        r == matches_less(c@, v@),
{
    if v.major != c.major {
        return v.major < c.major;
    }
    match c.minor {
        None => false,
        Some(m) => {
            if v.minor != m {
                return v.minor < m;
            }
            match c.patch {
                None => false,
                Some(p) => {
                    if v.patch != p {
                        return v.patch < p;
                    }
                    pre_lt_exec(&v.pre, &c.pre)
                },
            }
        },
    }
}

fn matches_tilde_exec(c: &Comparator, v: &Version) -> (r: bool)
    ensures
        r == matches_tilde(c@, v@),
{
    if v.major != c.major {
        return false;
    }
    match c.minor {
        None => true,
        Some(m) => {
            if v.minor != m {
                return false;
            }
            match c.patch {
                None => true,
                Some(p) => {
                    if v.patch != p {
                        return v.patch > p;
                    }
                    !pre_lt_exec(&v.pre, &c.pre)
                },
            }
        },
    }
}

fn matches_caret_exec(c: &Comparator, v: &Version) -> (r: bool)
    ensures
        r == matches_caret(c@, v@),
{
    if v.major != c.major {
        return false;
    }
    match c.minor {
        None => true,
        Some(m) => {
            match c.patch {
                None => {
                    if c.major > 0 {
                        v.minor >= m
                    } else {
                        v.minor == m
                    }
                },
                Some(p) => {
                    if c.major > 0 {
                        if v.minor != m {
                            v.minor > m
                        } else if v.patch != p {
                            v.patch > p
                        } else {
                            !pre_lt_exec(&v.pre, &c.pre)
                        }
                    } else if m > 0 {
                        if v.minor != m {
                            false
                        } else if v.patch != p {
                            v.patch > p
                        } else {
                            !pre_lt_exec(&v.pre, &c.pre)
                        }
                    } else if v.minor != m || v.patch != p {
                        false
                    } else {
                        !pre_lt_exec(&v.pre, &c.pre)
                    }
                },
            }
        },
    }
}

/// Whether a whole requirement accepts a version.
pub fn req_matches_exec(req: &Vec<Comparator>, v: &Version) -> (r: bool)
    ensures
        r == req_matches(req.deep_view(), v@),
{
    let n = req.len();
    let mut i: usize = 0;
    while i < n
        invariant
            n == req.len(),
            i <= n,
            forall|j: int| 0 <= j < i ==> comparator_matches(#[trigger] req.deep_view()[j], v@),
        decreases n - i,
    {
        proof {
            assert(req[i as int]@ == req.deep_view()[i as int]);
        }
        if !comparator_matches_exec(&req[i], v) {
            proof {
                assert(!comparator_matches(req.deep_view()[i as int], v@));
                assert(!all_comparators_match(req.deep_view(), v@));
            }
            return false;
        }
        i += 1;
    }
    proof {
        assert(all_comparators_match(req.deep_view(), v@));
    }
    if v.pre.len() == 0 {
        proof {
            assert(v@.pre.len() == 0);
        }
        return true;
    }
    let mut i: usize = 0;
    while i < n
        invariant
            n == req.len(),
            i <= n,
            all_comparators_match(req.deep_view(), v@),
            v@.pre.len() > 0,
            forall|j: int| 0 <= j < i ==> !pre_compatible(#[trigger] req.deep_view()[j], v@),
        decreases n - i,
    {
        proof {
            assert(req[i as int]@ == req.deep_view()[i as int]);
        }
        let c = &req[i];
        let compat = c.pre.len() > 0 && (match c.minor {
            Some(m) => m == v.minor,
            None => false,
        }) && (match c.patch {
            Some(p) => p == v.patch,
            None => false,
        }) && c.major == v.major;
        if compat {
            proof {
                assert(pre_compatible(req.deep_view()[i as int], v@));
                assert(some_pre_compatible(req.deep_view(), v@));
            }
            return true;
        }
        i += 1;
    }
    proof {
        assert(!some_pre_compatible(req.deep_view(), v@));
    }
    false
}

// ---------------------------------------------------------------------------
// Parsing
// ---------------------------------------------------------------------------
/// A wildcard component.
pub open spec fn wildcard_tok(t: Seq<char>) -> bool {
    t == seq!['x'] || t == seq!['X'] || t == seq!['*']
}

/// Split the leading operator off a comparator token.  `None` means the
/// token was bare.
pub open spec fn strip_op(t: Seq<char>) -> (Option<ReqOp>, Seq<char>) {
    if t.len() >= 2 && t[0] == '>' && t[1] == '=' {
        (Some(ReqOp::GreaterEq), t.skip(2))
    } else if t.len() >= 2 && t[0] == '<' && t[1] == '=' {
        (Some(ReqOp::LessEq), t.skip(2))
    } else if t.len() >= 1 && t[0] == '>' {
        (Some(ReqOp::Greater), t.skip(1))
    } else if t.len() >= 1 && t[0] == '<' {
        (Some(ReqOp::Less), t.skip(1))
    } else if t.len() >= 1 && t[0] == '=' {
        (Some(ReqOp::Exact), t.skip(1))
    } else if t.len() >= 1 && t[0] == '^' {
        (Some(ReqOp::Caret), t.skip(1))
    } else if t.len() >= 1 && t[0] == '~' {
        (Some(ReqOp::Tilde), t.skip(1))
    } else {
        (None, t)
    }
}

/// The parse of one comparator token.
pub open spec fn parse_comparator_view(t: Seq<char>) -> Option<ComparatorView> {
    let stripped = strip_op(t);
    let opo = stripped.0;
    let rest0 = stripped.1;
    let ib = text::first_match(rest0, seq!['+']);
    let rest = if ib >= 0 {
        rest0.take(ib)
    } else {
        rest0
    };
    let ih = text::first_match(rest, seq!['-']);
    let core = if ih >= 0 {
        rest.take(ih)
    } else {
        rest
    };
    let ppart = if ih >= 0 {
        Option::Some(rest.skip(ih + 1))
    } else {
        Option::None
    };
    let nums = text::split_spec(core, seq!['.']);
    let pre = match ppart {
        Option::Some(p) => text::split_spec(p, seq!['.']),
        Option::None => Seq::empty(),
    };
    let has_pre = ppart is Some;
    let minor_wild = nums.len() >= 2 && wildcard_tok(nums[1]);
    let patch_wild = nums.len() == 3 && wildcard_tok(nums[2]);
    if nums.len() > 3 || !num_ok(nums[0]) {
        Option::None
    } else if minor_wild && nums.len() == 3 && !patch_wild {
        Option::None
    } else if (minor_wild || patch_wild) && has_pre {
        Option::None
    } else if nums.len() >= 2 && !minor_wild && !num_ok(nums[1]) {
        Option::None
    } else if nums.len() == 3 && !patch_wild && !num_ok(nums[2]) {
        Option::None
    } else if has_pre && nums.len() < 3 {
        Option::None
    } else if has_pre && !pre_idents_ok(pre) {
        Option::None
    } else {
        let op = match opo {
            Option::Some(o) => o,
            Option::None => if minor_wild || patch_wild {
                ReqOp::Wildcard
            } else {
                ReqOp::Caret
            },
        };
        Option::Some(
            ComparatorView {
                op: op,
                major: text::dec_value(nums[0]),
                minor: if nums.len() >= 2 && !minor_wild {
                    Some(text::dec_value(nums[1]))
                } else {
                    None
                },
                patch: if nums.len() == 3 && !patch_wild && !minor_wild {
                    Some(text::dec_value(nums[2]))
                } else {
                    None
                },
                pre: pre,
            },
        )
    }
}

/// The parse of a token list: empty tokens and lone wildcards contribute
/// nothing; an invalid token refuses the whole requirement.
pub open spec fn parse_comparators(tokens: Seq<Seq<char>>) -> Option<Seq<ComparatorView>>
    decreases tokens.len(),
{
    if tokens.len() == 0 {
        Option::Some(Seq::empty())
    } else {
        let rest = parse_comparators(tokens.skip(1));
        let t = tokens[0];
        if t.len() == 0 || wildcard_tok(t) {
            rest
        } else {
            match (parse_comparator_view(t), rest) {
                (Option::Some(c), Option::Some(r)) => Option::Some(seq![c] + r),
                _ => Option::None,
            }
        }
    }
}

/// The parse of a whole requirement text.
pub open spec fn parse_req_view(s: Seq<char>) -> Option<Seq<ComparatorView>> {
    parse_comparators(text::split_spec(text::replace_spec(s, seq![','], seq![' ']), seq![' ']))
}

fn strip_op_exec(t: &str) -> (r: (Option<ReqOp>, String))
    ensures
        r.0 == strip_op(t@).0,
        r.1@ == strip_op(t@).1,
{
    let n = t.unicode_len();
    if n >= 2 && t.get_char(0) == '>' && t.get_char(1) == '=' {
        (Some(ReqOp::GreaterEq), t.substring_char(2, n).to_owned())
    } else if n >= 2 && t.get_char(0) == '<' && t.get_char(1) == '=' {
        (Some(ReqOp::LessEq), t.substring_char(2, n).to_owned())
    } else if n >= 1 && t.get_char(0) == '>' {
        (Some(ReqOp::Greater), t.substring_char(1, n).to_owned())
    } else if n >= 1 && t.get_char(0) == '<' {
        (Some(ReqOp::Less), t.substring_char(1, n).to_owned())
    } else if n >= 1 && t.get_char(0) == '=' {
        (Some(ReqOp::Exact), t.substring_char(1, n).to_owned())
    } else if n >= 1 && t.get_char(0) == '^' {
        (Some(ReqOp::Caret), t.substring_char(1, n).to_owned())
    } else if n >= 1 && t.get_char(0) == '~' {
        (Some(ReqOp::Tilde), t.substring_char(1, n).to_owned())
    } else {
        (None, t.to_owned())
    }
}

fn wildcard_tok_exec(t: &str) -> (r: bool)
    ensures
        r == wildcard_tok(t@),
{
    proof {
        reveal_strlit("x");
        reveal_strlit("X");
        reveal_strlit("*");
        assert("x"@ =~= seq!['x']);
        assert("X"@ =~= seq!['X']);
        assert("*"@ =~= seq!['*']);
    }
    text::str_eq(t, "x") || text::str_eq(t, "X") || text::str_eq(t, "*")
}

/// Parse one comparator token.
#[verifier::loop_isolation(false)]
pub fn parse_comparator(t: &str) -> (r: Option<Comparator>)
    ensures
        match r {
            Some(c) => parse_comparator_view(t@) == Option::Some(c@),
            None => parse_comparator_view(t@) is None,
        },
{
    proof {
        reveal_strlit("+");
        reveal_strlit("-");
        reveal_strlit(".");
        assert("+"@ =~= seq!['+']);
        assert("-"@ =~= seq!['-']);
        assert("."@ =~= seq!['.']);
    }
    let (opo, rest0) = strip_op_exec(t);
    let rest0n = rest0.as_str().unicode_len();
    let rest: String = match text::split_once_str(rest0.as_str(), "+") {
        Some(p) => p.0,
        None => rest0.clone(),
    };
    let (core, ppart): (String, Option<String>) = match text::split_once_str(rest.as_str(), "-") {
        Some(p) => (p.0, Some(p.1)),
        None => (rest.clone(), None),
    };
    let nums = text::split_all(core.as_str(), ".");
    let ghost nums_spec = text::split_spec(core@, seq!['.']);
    proof {
        assert(nums.deep_view() == nums_spec);
        assert(nums[0]@ == nums_spec[0]);
    }
    if nums.len() > 3 {
        return None;
    }
    let major = match crate::version::parse_num(nums[0].as_str()) {
        Some(v) => v,
        None => {
            return None;
        },
    };
    let minor_wild = nums.len() >= 2 && wildcard_tok_exec(nums[1].as_str());
    let patch_wild = nums.len() == 3 && wildcard_tok_exec(nums[2].as_str());
    proof {
        if nums.len() >= 2 {
            assert(nums[1]@ == nums_spec[1]);
        }
        if nums.len() == 3 {
            assert(nums[2]@ == nums_spec[2]);
        }
    }
    if minor_wild && nums.len() == 3 && !patch_wild {
        return None;
    }
    if (minor_wild || patch_wild) && ppart.is_some() {
        return None;
    }
    let mut minor: Option<u64> = None;
    if nums.len() >= 2 && !minor_wild {
        match crate::version::parse_num(nums[1].as_str()) {
            Some(v) => {
                minor = Some(v);
            },
            None => {
                return None;
            },
        }
    }
    let mut patch: Option<u64> = None;
    if nums.len() == 3 && !patch_wild {
        match crate::version::parse_num(nums[2].as_str()) {
            Some(v) => {
                if !minor_wild {
                    patch = Some(v);
                }
            },
            None => {
                return None;
            },
        }
    }
    let mut pre: Vec<String> = Vec::new();
    match &ppart {
        Some(p) => {
            if nums.len() < 3 {
                return None;
            }
            let parts = text::split_all(p.as_str(), ".");
            let m = parts.len();
            let mut i: usize = 0;
            while i < m
                invariant
                    m == parts.len(),
                    i <= m,
                    forall|j: int| 0 <= j < i ==> pre_ident_ok(parts.deep_view()[j]),
                decreases m - i,
            {
                let part = &parts[i];
                proof {
                    assert(parts[i as int]@ == parts.deep_view()[i as int]);
                }
                if part.as_str().unicode_len() == 0 || !crate::version::ident_chars_ok(
                    part.as_str(),
                ) {
                    proof {
                        assert(!pre_idents_ok(parts.deep_view()));
                    }
                    return None;
                }
                if crate::version::all_digits_exec(part.as_str())
                    && !crate::version::no_leading_zero_exec(part.as_str()) {
                    proof {
                        assert(!pre_idents_ok(parts.deep_view()));
                    }
                    return None;
                }
                i += 1;
            }
            proof {
                assert(pre_idents_ok(parts.deep_view()));
            }
            pre = parts;
        },
        None => {},
    }
    let op: ReqOp = match opo {
        Some(o) => o,
        None => if minor_wild || patch_wild {
            ReqOp::Wildcard
        } else {
            ReqOp::Caret
        },
    };
    let c = Comparator { op, major, minor, patch, pre };
    proof {
        assert(c@.pre =~~= (match parse_comparator_view(t@) {
            Option::Some(w) => w.pre,
            Option::None => Seq::empty(),
        }));
        assert(parse_comparator_view(t@) == Option::Some(c@));
    }
    Some(c)
}

/// Parse a requirement text into its comparators.
#[verifier::loop_isolation(false)]
pub fn parse_req(s: &str) -> (r: Option<Vec<Comparator>>)
    ensures
        match r {
            Some(req) => parse_req_view(s@) == Option::Some(req.deep_view()),
            None => parse_req_view(s@) is None,
        },
{
    proof {
        reveal_strlit(",");
        reveal_strlit(" ");
        assert(","@ =~= seq![',']);
        assert(" "@ =~= seq![' ']);
    }
    let replaced = text::replace_all(s, ",", " ");
    let tokens = text::split_all(replaced.as_str(), " ");
    let ghost toks = tokens.deep_view();
    proof {
        assert(toks == text::split_spec(text::replace_spec(s@, seq![','], seq![' ']), seq![' ']));
    }
    let n = tokens.len();
    let mut out: Vec<Comparator> = Vec::new();
    let mut i: usize = 0;
    proof {
        assert(toks.skip(0) =~= toks);
        assert(out.deep_view() =~= Seq::<ComparatorView>::empty());
    }
    while i < n
        invariant
            n == tokens.len(),
            i <= n,
            toks == tokens.deep_view(),
            match parse_comparators(toks.skip(i as int)) {
                Option::Some(r) => parse_comparators(toks) == Option::Some(
                    out.deep_view() + r,
                ),
                Option::None => parse_comparators(toks) is None,
            },
        decreases n - i,
    {
        let ghost remtoks = toks.skip(i as int);
        proof {
            assert(remtoks.len() == n - i);
            assert(remtoks[0] == toks[i as int]);
            assert(remtoks.skip(1) =~= toks.skip(i + 1));
            assert(tokens[i as int]@ == toks[i as int]);
        }
        let tok = &tokens[i];
        if tok.as_str().unicode_len() == 0 || wildcard_tok_exec(tok.as_str()) {
            i += 1;
            continue ;
        }
        match parse_comparator(tok.as_str()) {
            Some(c) => {
                let ghost before = out.deep_view();
                let ghost cv = c@;
                out.push(c);
                proof {
                    assert(out.deep_view() =~~= before + seq![cv]);
                    if parse_comparators(toks.skip(i + 1)) is Some {
                        let rr = parse_comparators(toks.skip(i + 1)).unwrap();
                        assert(parse_comparators(remtoks) == Option::Some(seq![cv] + rr));
                        assert((before + seq![cv]) + rr =~= before + (seq![cv] + rr));
                    }
                }
                i += 1;
            },
            None => {
                return None;
            },
        }
    }
    proof {
        assert(toks.skip(n as int) =~= Seq::<Seq<char>>::empty());
        assert(parse_comparators(toks.skip(n as int)) == Option::Some(
            Seq::<ComparatorView>::empty(),
        ));
        assert(out.deep_view() + Seq::<ComparatorView>::empty() =~= out.deep_view());
    }
    Some(out)
}

} // verus!

use vstd::string::StrSliceExecFns;
use vstd::string::StringExecFns;
