//! Spec-text utilities of the command layer: `NAME@VERSION` splitting and
//! canonicalization of the version text stored back into the manifest.
use vstd::prelude::*;

use crate::text;
use crate::version::parse_version_view;

verus! {

/// Split an install argument into name and optional version text.
pub fn parse_spec(spec: &str) -> (r: (String, Option<String>))
    ensures
        ({
            let i = text::first_match(spec@, seq!['@']);
            if i >= 0 {
                r.0@ == spec@.take(i) && (r.1 matches Some(v) && v@ == spec@.skip(i + 1))
            } else {
                r.0@ == spec@ && r.1 is None
            }
        }),
{
    proof {
        reveal_strlit("@");
        assert("@"@ =~= seq!['@']);
    }
    match text::split_once_str(spec, "@") {
        Some(p) => (p.0, Some(p.1)),
        None => (spec.to_owned(), None),
    }
}

/// The text holds some range token.
pub open spec fn has_range_tokens(t: Seq<char>) -> bool {
    t.contains('^') || t.contains('~') || t.contains('*') || t.contains('x') || t.contains('X')
        || text::contains_spec(t, seq!['|', '|']) || t.contains('-') || t.contains('>')
        || t.contains('<') || t.contains('=')
}

/// Digits and dots only.
pub open spec fn digits_and_dots(t: Seq<char>) -> bool {
    forall|i: int| 0 <= i < t.len() ==> text::is_digit(#[trigger] t[i]) || t[i] == '.'
}

/// The caret form of an exact version; other text passes through.
pub open spec fn caret_for_version_spec(v: Seq<char>) -> Seq<char> {
    if parse_version_view(v) is Some {
        seq!['^'] + v
    } else {
        v
    }
}

/// The version text stored back into the manifest after an install: an
/// explicit range is kept; an exact version is kept or widened to a caret
/// range; a partial all-numeric text gains a wildcard patch; without a user
/// text the resolved version is stored, widened unless exactness was asked.
pub open spec fn canonicalize_spec_view(
    user: Option<Seq<char>>,
    resolved: Seq<char>,
    exact_flag: bool,
) -> Seq<char> {
    match user {
        Option::Some(spec0) => {
            let t = text::trim_spec(spec0);
            if t.len() == 0 {
                resolved
            } else if has_range_tokens(t) {
                t
            } else if parse_version_view(t) is Some {
                if exact_flag {
                    t
                } else {
                    seq!['^'] + t
                }
            } else if digits_and_dots(t) && text::count_char(t, '.') <= 1 {
                t + ".x"@
            } else {
                t
            }
        },
        Option::None => if exact_flag {
            resolved
        } else {
            caret_for_version_spec(resolved)
        },
    }
}

/// The caret form of an exact version.
pub fn caret_for_version(ver: &str) -> (r: String)
    ensures
        r@ == caret_for_version_spec(ver@),
{
    if crate::version::parse_version(ver).is_none() {
        return ver.to_owned();
    }
    let mut out = "^".to_owned();
    out.append(ver);
    proof {
        reveal_strlit("^");
        assert("^"@ =~= seq!['^']);
        assert(out@ == seq!['^'] + ver@);
    }
    out
}

fn digits_and_dots_exec(t: &str) -> (r: bool)
    ensures
        r == digits_and_dots(t@),
{
    let n = t.unicode_len();
    let mut i: usize = 0;
    while i < n
        invariant
            n == t@.len(),
            i <= n,
            forall|j: int| 0 <= j < i ==> text::is_digit(#[trigger] t@[j]) || t@[j] == '.',
        decreases n - i,
    {
        let c = t.get_char(i);
        let u = c as u32;
        if !(48 <= u && u <= 57) && c != '.' {
            return false;
        }
        i += 1;
    }
    true
}

/// Canonicalize the version text to store in the manifest.
pub fn canonicalize_spec(
    user_spec: Option<&str>,
    resolved: &str,
    exact_flag: bool,
    latest_flag: bool,
) -> (r: String)
    ensures
        r@ == canonicalize_spec_view(
            match user_spec {
                Some(u) => Option::Some(u@),
                None => Option::None,
            },
            resolved@,
            exact_flag,
        ),
{
    proof {
        reveal_strlit("||");
        assert("||"@ =~= seq!['|', '|']);
    }
    let _ = latest_flag;
    match user_spec {
        Some(spec0) => {
            let t = text::trim(spec0);
            if t.as_str().unicode_len() == 0 {
                return resolved.to_owned();
            }
            let ranged = text::contains_char(t.as_str(), '^') || text::contains_char(
                t.as_str(),
                '~',
            ) || text::contains_char(t.as_str(), '*') || text::contains_char(t.as_str(), 'x')
                || text::contains_char(t.as_str(), 'X') || text::contains_str(t.as_str(), "||")
                || text::contains_char(t.as_str(), '-') || text::contains_char(t.as_str(), '>')
                || text::contains_char(t.as_str(), '<') || text::contains_char(t.as_str(), '=');
            if ranged {
                return normalize_partials(t);
            }
            if crate::version::parse_version(t.as_str()).is_some() {
                if exact_flag {
                    return t;
                }
                let mut out = "^".to_owned();
                out.append(t.as_str());
                proof {
                    reveal_strlit("^");
                    assert("^"@ =~= seq!['^']);
                    assert(out@ == seq!['^'] + t@);
                }
                return out;
            }
            let dots = text::count_char_exec(t.as_str(), '.');
            if digits_and_dots_exec(t.as_str()) && dots <= 1 {
                let mut out = t;
                out.append(".x");
                return out;
            }
            t
        },
        None => {
            if exact_flag {
                resolved.to_owned()
            } else {
                caret_for_version(resolved)
            }
        },
    }
}

/// A range text is stored as the user wrote it.
pub fn normalize_partials(spec: String) -> (r: String)
    ensures
        r@ == spec@,
{
    spec
}

} // verus!

use vstd::string::StrSliceExecFns;
use vstd::string::StringExecFns;
