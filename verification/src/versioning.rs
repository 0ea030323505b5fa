//! The version resolver: a process-scoped index of release lists per tool
//! name, and resolution of version specifications against it.
//!
//! The index is an explicit value handed through callers.  Fetching release
//! data from the network is not this module's business: raw version strings
//! are ingested once per name, normalized (unparsable and pre-release entries
//! discarded, the rest strictly descending and without duplicate triples),
//! and every later query is answered from the stored list alone.
use vstd::prelude::*;

use crate::text;
use crate::version::{
    parse_version, parse_version_view, triple_eq, triple_lt, version_lt, version_lt_exec,
    version_string, duplicate_version, Version, VersionView,
};

verus! {

/// Why a resolution failed.
#[derive(Debug)]
pub enum ResolutionError {
    /// No release list was ingested for this name.
    NoIndex { name: String },
    /// The release list for this name is empty.
    NoVersions { name: String },
    /// No version satisfies the specification.
    Unresolvable { name: String, spec: String },
    /// The name is not in the known-tool catalog.
    UnknownTool { name: String },
}

/// One name with its normalized release list.
pub struct CacheEntry {
    pub name: String,
    pub versions: Vec<Version>,
}

/// The model of a cache entry.
pub struct CacheEntryView {
    pub name: Seq<char>,
    pub versions: Seq<VersionView>,
}

impl DeepView for CacheEntry {
    type V = CacheEntryView;

    open spec fn deep_view(&self) -> CacheEntryView {
        CacheEntryView { name: self.name@, versions: self.versions.deep_view() }
    }
}

/// The per-process version index.
pub struct VersionCache {
    pub entries: Vec<CacheEntry>,
}

impl View for VersionCache {
    type V = Seq<CacheEntryView>;

    open spec fn view(&self) -> Seq<CacheEntryView> {
        self.entries.deep_view()
    }
}

/// The list stored under `name`, if any.
pub open spec fn lookup_spec(entries: Seq<CacheEntryView>, name: Seq<char>) -> Option<
    Seq<VersionView>,
>
    decreases entries.len(),
{
    if entries.len() == 0 {
        Option::None
    } else if entries[0].name == name {
        Option::Some(entries[0].versions)
    } else {
        lookup_spec(entries.skip(1), name)
    }
}

/// Strictly descending by numeric triple.
pub open spec fn sorted_desc(l: Seq<VersionView>) -> bool {
    forall|i: int, j: int| 0 <= i < j < l.len() ==> triple_lt(#[trigger] l[j], #[trigger] l[i])
}

/// No entry carries pre-release identifiers.
pub open spec fn no_prerelease(l: Seq<VersionView>) -> bool {
    forall|i: int| 0 <= i < l.len() ==> (#[trigger] l[i]).pre.len() == 0
}

/// Some entry has this numeric triple.
pub open spec fn has_triple(l: Seq<VersionView>, t: VersionView) -> bool {
    exists|i: int| 0 <= i < l.len() && triple_eq(#[trigger] l[i], t)
}

/// Some raw string parses to a pre-release-free version with this triple.
pub open spec fn raw_has_triple(raw: Seq<Seq<char>>, t: VersionView) -> bool {
    exists|i: int|
        0 <= i < raw.len() && match parse_version_view(#[trigger] raw[i]) {
            Option::Some(w) => w.pre.len() == 0 && triple_eq(w, t),
            Option::None => false,
        }
}

/// Every well-formed cache holds only normalized lists.
pub open spec fn cache_wf(entries: Seq<CacheEntryView>) -> bool {
    forall|i: int|
        0 <= i < entries.len() ==> sorted_desc((#[trigger] entries[i]).versions) && no_prerelease(
            entries[i].versions,
        )
}

/// Normalize a raw release list: drop what does not parse as a strict
/// version and what carries pre-release identifiers; order the rest strictly
/// descending, one entry per numeric triple (the first occurrence is kept).
pub fn normalize_version_list(raw: &Vec<String>) -> (out: Vec<Version>)
    ensures
        sorted_desc(out.deep_view()),
        no_prerelease(out.deep_view()),
        forall|k: int|
            0 <= k < out.deep_view().len() ==> raw_has_triple(
                raw.deep_view(),
                #[trigger] out.deep_view()[k],
            ),
        forall|t: VersionView| raw_has_triple(raw.deep_view(), t) ==> has_triple(
            out.deep_view(),
            t,
        ),
{
    let n = raw.len();
    let mut out: Vec<Version> = Vec::new();
    let mut i: usize = 0;
    proof {
        assert(out.deep_view() =~= Seq::<VersionView>::empty());
    }
    while i < n
        invariant
            n == raw.len(),
            i <= n,
            sorted_desc(out.deep_view()),
            no_prerelease(out.deep_view()),
            forall|k: int|
                0 <= k < out.deep_view().len() ==> raw_has_triple(
                    raw.deep_view().take(i as int),
                    #[trigger] out.deep_view()[k],
                ),
            forall|t: VersionView| raw_has_triple(raw.deep_view().take(i as int), t)
                ==> has_triple(out.deep_view(), t),
        decreases n - i,
    {
        let ghost old_out = out.deep_view();
        let ghost taken = raw.deep_view().take(i as int);
        proof {
            assert(raw.deep_view().take(i + 1) =~= taken.push(raw.deep_view()[i as int]));
            assert(raw[i as int]@ == raw.deep_view()[i as int]);
        }
        match parse_version(raw[i].as_str()) {
            Some(v) => {
                if v.pre.len() == 0 {
                    insert_version(&mut out, v);
                    proof {
                        let new = out.deep_view();
                        let ghost vv = (match parse_version_view(raw.deep_view()[i as int]) {
                            Option::Some(w) => w,
                            Option::None => arbitrary(),
                        });
                        assert forall|k: int| 0 <= k < new.len() implies raw_has_triple(
                            raw.deep_view().take(i + 1),
                            #[trigger] new[k],
                        ) by {
                            if has_triple(old_out, new[k]) {
                                let j = choose|j: int|
                                    0 <= j < old_out.len() && triple_eq(#[trigger] old_out[j], new[k]);
                                assert(raw_has_triple(taken, old_out[j]));
                                let m = choose|m: int|
                                    0 <= m < taken.len() && match parse_version_view(
                                        #[trigger] taken[m],
                                    ) {
                                        Option::Some(w) => w.pre.len() == 0 && triple_eq(
                                            w,
                                            old_out[j],
                                        ),
                                        Option::None => false,
                                    };
                                assert(raw.deep_view().take(i + 1)[m] == taken[m]);
                            } else {
                                assert(triple_eq(vv, new[k]));
                                assert(raw.deep_view().take(i + 1)[i as int] == raw.deep_view()[i as int]);
                            }
                        }
                        assert forall|t: VersionView| raw_has_triple(
                            raw.deep_view().take(i + 1),
                            t,
                        ) implies has_triple(new, t) by {
                            let m = choose|m: int|
                                0 <= m < raw.deep_view().take(i + 1).len() && match parse_version_view(
                                    #[trigger] raw.deep_view().take(i + 1)[m],
                                ) {
                                    Option::Some(w) => w.pre.len() == 0 && triple_eq(w, t),
                                    Option::None => false,
                                };
                            if m < i {
                                assert(raw.deep_view().take(i + 1)[m] == taken[m]);
                                assert(raw_has_triple(taken, t));
                                let j = choose|j: int|
                                    0 <= j < old_out.len() && triple_eq(#[trigger] old_out[j], t);
                                assert(has_triple(old_out, t));
                            } else {
                                assert(raw.deep_view().take(i + 1)[m] == raw.deep_view()[i as int]);
                                assert(triple_eq(vv, t));
                            }
                        }
                    }
                } else {
                    proof {
                        lemma_take_step_no_new_triples(raw.deep_view(), i as int, old_out);
                    }
                }
            },
            None => {
                proof {
                    lemma_take_step_no_new_triples(raw.deep_view(), i as int, old_out);
                }
            },
        }
        i += 1;
    }
    proof {
        assert(raw.deep_view().take(n as int) =~= raw.deep_view());
    }
    out
}

/// When the next raw entry is dropped, the reachable triples do not change.
proof fn lemma_take_step_no_new_triples(raw: Seq<Seq<char>>, i: int, l: Seq<VersionView>)
    requires
        0 <= i < raw.len(),
        match parse_version_view(raw[i]) {
            Option::Some(w) => w.pre.len() > 0,
            Option::None => true,
        },
        forall|k: int| 0 <= k < l.len() ==> raw_has_triple(raw.take(i), #[trigger] l[k]),
        forall|t: VersionView| raw_has_triple(raw.take(i), t) ==> has_triple(l, t),
    ensures
        forall|k: int| 0 <= k < l.len() ==> raw_has_triple(raw.take(i + 1), #[trigger] l[k]),
        forall|t: VersionView| raw_has_triple(raw.take(i + 1), t) ==> has_triple(l, t),
{
    assert(raw.take(i + 1) =~= raw.take(i).push(raw[i]));
    assert forall|k: int| 0 <= k < l.len() implies raw_has_triple(
        raw.take(i + 1),
        #[trigger] l[k],
    ) by {
        let m = choose|m: int|
            0 <= m < raw.take(i).len() && match parse_version_view(#[trigger] raw.take(i)[m]) {
                Option::Some(w) => w.pre.len() == 0 && triple_eq(w, l[k]),
                Option::None => false,
            };
        assert(raw.take(i + 1)[m] == raw.take(i)[m]);
    }
    assert forall|t: VersionView| raw_has_triple(raw.take(i + 1), t) implies has_triple(l, t) by {
        let m = choose|m: int|
            0 <= m < raw.take(i + 1).len() && match parse_version_view(
                #[trigger] raw.take(i + 1)[m],
            ) {
                Option::Some(w) => w.pre.len() == 0 && triple_eq(w, t),
                Option::None => false,
            };
        if m < i {
            assert(raw.take(i + 1)[m] == raw.take(i)[m]);
            assert(raw_has_triple(raw.take(i), t));
        } else {
            assert(raw.take(i + 1)[m] == raw[i]);
        }
    }
}

/// Insert a pre-release-free version into a strictly descending list:
/// dropped when its triple is already present, placed at its position
/// otherwise.
fn insert_version(out: &mut Vec<Version>, v: Version)
    requires
        sorted_desc(old(out).deep_view()),
        no_prerelease(old(out).deep_view()),
        v@.pre.len() == 0,
    ensures
        sorted_desc(final(out).deep_view()),
        no_prerelease(final(out).deep_view()),
        forall|t: VersionView| has_triple(final(out).deep_view(), t) <==> (has_triple(
            old(out).deep_view(),
            t,
        ) || triple_eq(v@, t)),
        forall|k: int|
            0 <= k < final(out).deep_view().len() ==> has_triple(
                old(out).deep_view(),
                #[trigger] final(out).deep_view()[k],
            ) || triple_eq(v@, final(out).deep_view()[k]),
{
    let ghost before = out.deep_view();
    let n = out.len();
    let mut pos: usize = 0;
    while pos < n && !version_lt_exec(&out[pos], &v)
        invariant
            n == out.len(),
            before == out.deep_view(),
            sorted_desc(before),
            no_prerelease(before),
            v@.pre.len() == 0,
            pos <= n,
            forall|j: int| 0 <= j < pos ==> version_lt(v@, #[trigger] before[j]),
        decreases n - pos,
    {
        proof {
            assert(out[pos as int]@ == before[pos as int]);
        }
        if !version_lt_exec(&v, &out[pos]) {
            // neither strictly above nor below: same triple, drop the new one
            proof {
                assert(before[pos as int].pre.len() == 0);
                assert(triple_eq(before[pos as int], v@));
                assert(has_triple(before, v@));
                assert forall|t: VersionView| has_triple(before, t) || triple_eq(v@, t) implies
                    has_triple(before, t) by {
                    if triple_eq(v@, t) {
                        assert(triple_eq(before[pos as int], t));
                    }
                }
                assert forall|k: int| 0 <= k < before.len() implies has_triple(
                    before,
                    #[trigger] before[k],
                ) by {
                    assert(triple_eq(before[k], before[k]));
                }
            }
            return ;
        }
        pos += 1;
    }
    proof {
        if pos < n {
            assert(out[pos as int]@ == before[pos as int]);
            assert(version_lt(before[pos as int], v@));
        }
    }
    let ghost vv = v@;
    out.insert(pos, v);
    proof {
        let after = out.deep_view();
        assert(out@.len() == before.len() + 1);
        assert(after.len() == before.len() + 1);
        assert forall|k: int| 0 <= k < after.len() implies #[trigger] after[k] == (if k < pos {
            before[k]
        } else if k == pos {
            vv
        } else {
            before[k - 1]
        }) by {
            if k < pos {
                assert(out@[k] == old(out)@[k]);
            } else if k == pos {
                assert(out@[k] == old(out)@.insert(pos as int, v)[k]);
            } else {
                assert(out@[k] == old(out)@[k - 1]);
            }
            assert(after[k] == out@[k].deep_view());
            assert(before == Seq::new(old(out)@.len(), |i: int| old(out)@[i].deep_view()));
        }
        assert forall|i: int, j: int| 0 <= i < j < after.len() implies triple_lt(
            #[trigger] after[j],
            #[trigger] after[i],
        ) by {
            if i < pos && j == pos {
                assert(version_lt(vv, before[i]));
                assert(before[i].pre.len() == 0);
                assert(triple_lt(vv, before[i]));
            } else if i < pos && j > pos {
                assert(triple_lt(before[j - 1], before[i]));
            } else if i == pos && j > pos {
                assert(version_lt(before[pos as int], vv));
                assert(before[pos as int].pre.len() == 0);
                assert(triple_lt(before[pos as int], vv));
                if j - 1 > pos {
                    assert(triple_lt(before[j - 1], before[pos as int]));
                }
            }
        }
        assert forall|t: VersionView| has_triple(after, t) implies (has_triple(before, t)
            || triple_eq(vv, t)) by {
            let k = choose|k: int| 0 <= k < after.len() && triple_eq(#[trigger] after[k], t);
            if k != pos {
                let j = if k < pos {
                    k
                } else {
                    k - 1
                };
                assert(triple_eq(before[j], t));
            }
        }
        assert forall|t: VersionView| (has_triple(before, t) || triple_eq(vv, t)) implies
            has_triple(after, t) by {
            if has_triple(before, t) {
                let j = choose|j: int| 0 <= j < before.len() && triple_eq(#[trigger] before[j], t);
                if j < pos {
                    assert(triple_eq(after[j], t));
                } else {
                    assert(triple_eq(after[j + 1], t));
                }
            } else {
                assert(triple_eq(after[pos as int], t));
            }
        }
    }
}

// ---------------------------------------------------------------------------
// Resolution
// ---------------------------------------------------------------------------
/// First list entry accepted by the requirement (the list is descending, so
/// this is the greatest match).
pub open spec fn first_matching(list: Seq<VersionView>, req: Seq<crate::vreq::ComparatorView>)
    -> Option<VersionView>
    decreases list.len(),
{
    if list.len() == 0 {
        Option::None
    } else if crate::vreq::req_matches(req, list[0]) {
        Option::Some(list[0])
    } else {
        first_matching(list.skip(1), req)
    }
}

/// The canonical text of `v` starts with `s`.
pub open spec fn version_starts_with(v: VersionView, s: Seq<char>) -> bool {
    s.len() <= crate::version::version_chars(v).len() && crate::version::version_chars(v).take(
        s.len() as int,
    ) == s
}

/// First list entry whose text starts with `s`.
pub open spec fn first_prefixed(list: Seq<VersionView>, s: Seq<char>) -> Option<VersionView>
    decreases list.len(),
{
    if list.len() == 0 {
        Option::None
    } else if version_starts_with(list[0], s) {
        Option::Some(list[0])
    } else {
        first_prefixed(list.skip(1), s)
    }
}

/// Resolution of a clause without `||`: normalize wildcards and partials,
/// match the requirement against the descending list, fall back to a textual
/// prefix match.
pub open spec fn resolve_flat(list: Seq<VersionView>, s: Seq<char>) -> Option<VersionView> {
    let norm0 = text::replace_spec(s, seq!['*'], seq!['x']);
    let dots = text::count_char(norm0, '.');
    let norm = if parse_version_view(norm0) is None && ((dots == 1 && !norm0.contains('x')
        && !norm0.contains('^') && !norm0.contains('~')) || (dots == 0 && text::all_digits(
        norm0,
    ))) {
        norm0 + seq!['.', 'x']
    } else {
        norm0
    };
    let found = match crate::vreq::parse_req_view(norm) {
        Option::Some(req) => first_matching(list, req),
        Option::None => Option::None,
    };
    if found is Some {
        found
    } else {
        first_prefixed(list, s)
    }
}

/// Resolution of one clause: an exact version is returned unchanged; a
/// hyphen range `A - B` is rewritten to `>=A <=B`; otherwise the clause is
/// normalized and matched.
pub open spec fn resolve_clause(list: Seq<VersionView>, s: Seq<char>) -> Option<VersionView>
    decreases text::count_char(s, '-'),
    via resolve_clause_decreases
{
    if parse_version_view(s) is Some {
        parse_version_view(s)
    } else {
        let ih = text::first_match(s, seq!['-']);
        let attempt = if ih >= 0 && s.contains(' ') {
            let a = text::trim_spec(s.take(ih));
            let b = text::trim_spec(s.skip(ih + 1));
            if a.len() > 0 && b.len() > 0 {
                resolve_clause(list, seq!['>', '='] + a + seq![' ', '<', '='] + b)
            } else {
                Option::None
            }
        } else {
            Option::None
        };
        if attempt is Some {
            attempt
        } else {
            resolve_flat(list, s)
        }
    }
}

#[via_fn]
proof fn resolve_clause_decreases(list: Seq<VersionView>, s: Seq<char>) {
    let ih = text::first_match(s, seq!['-']);
    if parse_version_view(s) is None && ih >= 0 && s.contains(' ') {
        let a = text::trim_spec(s.take(ih));
        let b = text::trim_spec(s.skip(ih + 1));
        if a.len() > 0 && b.len() > 0 {
            lemma_rewrite_count(s, a, b);
        }
    }
}

/// The hyphen rewrite of a clause drops one `-`.
proof fn lemma_rewrite_count(s: Seq<char>, a: Seq<char>, b: Seq<char>)
    requires
        text::first_match(s, seq!['-']) >= 0,
        a == text::trim_spec(s.take(text::first_match(s, seq!['-']))),
        b == text::trim_spec(s.skip(text::first_match(s, seq!['-']) + 1)),
    ensures
        text::count_char(seq!['>', '='] + a + seq![' ', '<', '='] + b, '-') < text::count_char(
            s,
            '-',
        ),
{
    let ih = text::first_match(s, seq!['-']);
    text::lemma_first_match(s, seq!['-']);
    assert(text::match_at(s, seq!['-'], ih));
    let head = s.take(ih);
    let tail = s.skip(ih + 1);
    assert(s =~= head + s.subrange(ih, ih + 1) + tail);
    text::lemma_count_char_concat(head + s.subrange(ih, ih + 1), tail, '-');
    text::lemma_count_char_concat(head, s.subrange(ih, ih + 1), '-');
    assert(s.subrange(ih, ih + 1) == seq!['-']);
    text::lemma_count_char_single('-');
    text::lemma_count_char_trim_le(head, '-');
    text::lemma_count_char_trim_le(tail, '-');
    let pre: Seq<char> = seq!['>', '='];
    let mid: Seq<char> = seq![' ', '<', '='];
    text::lemma_count_char_concat(pre + a + mid, b, '-');
    text::lemma_count_char_concat(pre + a, mid, '-');
    text::lemma_count_char_concat(pre, a, '-');
    text::lemma_count_char_absent(pre, '-');
    text::lemma_count_char_absent(mid, '-');
}

/// The best among the clauses of an `||` specification, scanned left to
/// right; an earlier clause wins a tie.
pub open spec fn best_of_clauses(
    list: Seq<VersionView>,
    clauses: Seq<Seq<char>>,
    acc: Option<VersionView>,
) -> Option<VersionView>
    decreases clauses.len(),
{
    if clauses.len() == 0 {
        acc
    } else {
        let c = text::trim_spec(clauses[0]);
        let cur = if c.len() == 0 {
            acc
        } else {
            match (resolve_clause(list, c), acc) {
                (Option::Some(v), Option::Some(w)) => if version_lt(w, v) {
                    Option::Some(v)
                } else {
                    Option::Some(w)
                },
                (Option::Some(v), Option::None) => Option::Some(v),
                (Option::None, other) => other,
            }
        };
        best_of_clauses(list, clauses.skip(1), cur)
    }
}

/// Resolution of a whole specification against a release list.
pub open spec fn resolve_spec(list: Seq<VersionView>, s: Seq<char>) -> Option<VersionView> {
    if parse_version_view(s) is Some {
        parse_version_view(s)
    } else if text::contains_spec(s, seq!['|', '|']) {
        best_of_clauses(list, text::split_spec(s, seq!['|', '|']), Option::None)
    } else {
        resolve_clause(list, s)
    }
}

/// Exec mirror of `resolve_clause`.
#[verifier::loop_isolation(false)]
pub fn resolve_clause_exec(list: &Vec<Version>, s: &str) -> (r: Option<Version>)
    ensures
        match r {
            Some(v) => resolve_clause(list.deep_view(), s@) == Option::Some(v@),
            None => resolve_clause(list.deep_view(), s@) is None,
        },
    decreases text::count_char(s@, '-'),
{
    proof {
        reveal_strlit("-");
        reveal_strlit("*");
        reveal_strlit("x");
        reveal_strlit(">=");
        reveal_strlit(" <=");
        reveal_strlit(".x");
        assert("-"@ =~= seq!['-']);
        assert("*"@ =~= seq!['*']);
        assert("x"@ =~= seq!['x']);
        assert(">="@ =~= seq!['>', '=']);
        assert(" <="@ =~= seq![' ', '<', '=']);
        assert(".x"@ =~= seq!['.', 'x']);
    }
    match parse_version(s) {
        Some(v) => {
            return Some(v);
        },
        None => {},
    }
    let mut attempt: Option<Version> = None;
    let ghost dv = list.deep_view();
    if text::contains_char(s, ' ') {
        match text::split_once_str(s, "-") {
            Some(p) => {
                let a = text::trim(p.0.as_str());
                let b = text::trim(p.1.as_str());
                if a.as_str().unicode_len() > 0 && b.as_str().unicode_len() > 0 {
                    let mut rw = ">=".to_owned();
                    rw.append(a.as_str());
                    rw.append(" <=");
                    rw.append(b.as_str());
                    proof {
                        assert(rw@ == seq!['>', '='] + a@ + seq![' ', '<', '='] + b@);
                        lemma_rewrite_count(s@, a@, b@);
                    }
                    attempt = resolve_clause_exec(list, rw.as_str());
                }
            },
            None => {},
        }
    }
    match attempt {
        Some(v) => {
            return Some(v);
        },
        None => {},
    }
    let norm0 = text::replace_all(s, "*", "x");
    let mut norm = norm0.clone();
    let parse_ok = parse_version(norm0.as_str()).is_some();
    let dots = text::count_char_exec(norm0.as_str(), '.');
    let cond1 = dots == 1 && !text::contains_char(norm0.as_str(), 'x') && !text::contains_char(
        norm0.as_str(),
        '^',
    ) && !text::contains_char(norm0.as_str(), '~');
    let cond2 = dots == 0 && crate::version::all_digits_exec(norm0.as_str());
    if !parse_ok && (cond1 || cond2) {
        norm.append(".x");
    }
    let found: Option<Version> = match crate::vreq::parse_req(norm.as_str()) {
        Some(req) => find_first_matching(list, &req),
        None => None,
    };
    match found {
        Some(v) => {
            proof {
                assert(resolve_clause(dv, s@) == Option::Some(v@));
            }
            Some(v)
        },
        None => find_first_prefixed(list, s),
    }
}

/// First version in the list accepted by the requirement.
#[verifier::loop_isolation(false)]
fn find_first_matching(list: &Vec<Version>, req: &Vec<crate::vreq::Comparator>) -> (r: Option<
    Version,
>)
    ensures
        match r {
            Some(v) => first_matching(list.deep_view(), req.deep_view()) == Option::Some(v@),
            None => first_matching(list.deep_view(), req.deep_view()) is None,
        },
{
    let ghost dv = list.deep_view();
    let ghost rq = req.deep_view();
    let n = list.len();
    let mut i: usize = 0;
    proof {
        assert(dv.skip(0) =~= dv);
    }
    while i < n
        invariant
            n == list.len(),
            i <= n,
            first_matching(dv, rq) == first_matching(dv.skip(i as int), rq),
        decreases n - i,
    {
        proof {
            assert(dv.skip(i as int)[0] == dv[i as int]);
            assert(list[i as int]@ == dv[i as int]);
            assert(dv.skip(i as int).skip(1) =~= dv.skip(i + 1));
        }
        if crate::vreq::req_matches_exec(req, &list[i]) {
            return Some(duplicate_version(&list[i]));
        }
        i += 1;
    }
    proof {
        assert(dv.skip(n as int) =~= Seq::<VersionView>::empty());
    }
    None
}

/// First version in the list whose text starts with `s`.
#[verifier::loop_isolation(false)]
fn find_first_prefixed(list: &Vec<Version>, s: &str) -> (r: Option<Version>)
    ensures
        match r {
            Some(v) => first_prefixed(list.deep_view(), s@) == Option::Some(v@),
            None => first_prefixed(list.deep_view(), s@) is None,
        },
{
    let ghost dv = list.deep_view();
    let n = list.len();
    let mut i: usize = 0;
    proof {
        assert(dv.skip(0) =~= dv);
    }
    while i < n
        invariant
            n == list.len(),
            i <= n,
            first_prefixed(dv, s@) == first_prefixed(dv.skip(i as int), s@),
        decreases n - i,
    {
        proof {
            assert(dv.skip(i as int)[0] == dv[i as int]);
            assert(list[i as int]@ == dv[i as int]);
            assert(dv.skip(i as int).skip(1) =~= dv.skip(i + 1));
        }
        let vs = version_string(&list[i]);
        if text::starts_with(vs.as_str(), s) {
            proof {
                assert(crate::version::version_chars(dv[i as int]).take(s@.len() as int)
                    =~= crate::version::version_chars(dv[i as int]).subrange(0, s@.len() as int));
            }
            return Some(duplicate_version(&list[i]));
        }
        proof {
            assert(crate::version::version_chars(dv[i as int]).take(s@.len() as int)
                =~= crate::version::version_chars(dv[i as int]).subrange(0, s@.len() as int));
        }
        i += 1;
    }
    proof {
        assert(dv.skip(n as int) =~= Seq::<VersionView>::empty());
    }
    None
}

/// Duplicate a version list.
pub fn duplicate_versions(list: &Vec<Version>) -> (r: Vec<Version>)
    ensures
        r.deep_view() == list.deep_view(),
{
    let mut out: Vec<Version> = Vec::new();
    let n = list.len();
    let mut i: usize = 0;
    while i < n
        invariant
            n == list.len(),
            i <= n,
            out.len() == i,
            forall|j: int| 0 <= j < i ==> out.deep_view()[j] == list.deep_view()[j],
        decreases n - i,
    {
        out.push(duplicate_version(&list[i]));
        i += 1;
    }
    proof {
        assert(out.deep_view() =~~= list.deep_view());
    }
    out
}

impl VersionCache {
    /// An empty index.
    pub fn new() -> (r: Self)
        ensures
            r@ == Seq::<CacheEntryView>::empty(),
            cache_wf(r@),
    {
        let r = VersionCache { entries: Vec::new() };
        proof {
            assert(r@ =~= Seq::<CacheEntryView>::empty());
        }
        r
    }

    /// Whether a list was ingested for this name.
    #[verifier::loop_isolation(false)]
    pub fn has_versions(&self, name: &str) -> (r: bool)
        ensures
            r == (lookup_spec(self@, name@) is Some),
    {
        let n = self.entries.len();
        let mut i: usize = 0;
        proof {
            assert(self@.skip(0) =~= self@);
        }
        while i < n
            invariant
                n == self.entries.len(),
                i <= n,
                lookup_spec(self@, name@) == lookup_spec(self@.skip(i as int), name@),
            decreases n - i,
        {
            proof {
                assert(self@.skip(i as int)[0] == self@[i as int]);
                assert(self.entries[i as int].deep_view() == self@[i as int]);
                assert(self@.skip(i as int).skip(1) =~= self@.skip(i + 1));
            }
            if text::str_eq(self.entries[i].name.as_str(), name) {
                return true;
            }
            i += 1;
        }
        proof {
            assert(self@.skip(n as int) =~= Seq::<CacheEntryView>::empty());
        }
        false
    }

    /// Ingest a raw release list for a name: the normalized list is stored
    /// and from now on answers every query for that name.
    pub fn ingest(&mut self, name: &str, raw: &Vec<String>)
        requires
            cache_wf(old(self)@),
        ensures
            cache_wf(final(self)@),
            match lookup_spec(final(self)@, name@) {
                Option::Some(l) => {
                    &&& sorted_desc(l)
                    &&& no_prerelease(l)
                    &&& forall|k: int|
                        0 <= k < l.len() ==> raw_has_triple(raw.deep_view(), #[trigger] l[k])
                    &&& forall|t: VersionView|
                        raw_has_triple(raw.deep_view(), t) ==> has_triple(l, t)
                },
                Option::None => false,
            },
            forall|n2: Seq<char>| n2 != name@ ==> lookup_spec(final(self)@, n2) == lookup_spec(
                old(self)@,
                n2,
            ),
    {
        let versions = normalize_version_list(raw);
        let entry = CacheEntry { name: name.to_owned(), versions };
        let ghost ev = entry.deep_view();
        let ghost before = self@;
        self.entries.insert(0, entry);
        proof {
            assert(self@.len() == before.len() + 1);
            assert(self@[0] == ev);
            assert forall|k: int| 0 < k < self@.len() implies #[trigger] self@[k] == before[k - 1] by {
                assert(self.entries@[k] == old(self).entries@[k - 1]);
            }
            assert(self@.skip(1) =~= before);
            assert(lookup_spec(self@, name@) == Option::Some(ev.versions));
        }
    }

    /// The full normalized release list for a name, descending and free of
    /// pre-releases.
    pub fn fetch_all_versions(&self, name: &str) -> (r: Result<Vec<Version>, ResolutionError>)
        requires
            cache_wf(self@),
        ensures
            match r {
                Ok(l) => {
                    &&& lookup_spec(self@, name@) == Option::Some(l.deep_view())
                    &&& sorted_desc(l.deep_view())
                    &&& no_prerelease(l.deep_view())
                },
                Err(e) => lookup_spec(self@, name@) is None && (e matches
                ResolutionError::NoIndex { name: n } && n@ == name@),
            },
    {
        match self.find_entry(name) {
            Some(idx) => {
                let l = duplicate_versions(&self.entries[idx].versions);
                proof {
                    assert(self@[idx as int].versions == l.deep_view());
                }
                Ok(l)
            },
            None => Err(ResolutionError::NoIndex { name: name.to_owned() }),
        }
    }

    /// Index of the entry holding `name`, with its stored list equal to what
    /// lookup finds.
    #[verifier::loop_isolation(false)]
    fn find_entry(&self, name: &str) -> (r: Option<usize>)
        ensures
            match r {
                Some(i) => i < self.entries.len() && lookup_spec(self@, name@) == Option::Some(
                    self@[i as int].versions,
                ),
                None => lookup_spec(self@, name@) is None,
            },
    {
        let n = self.entries.len();
        let mut i: usize = 0;
        proof {
            assert(self@.skip(0) =~= self@);
        }
        while i < n
            invariant
                n == self.entries.len(),
                i <= n,
                lookup_spec(self@, name@) == lookup_spec(self@.skip(i as int), name@),
            decreases n - i,
        {
            proof {
                assert(self@.skip(i as int)[0] == self@[i as int]);
                assert(self.entries[i as int].deep_view() == self@[i as int]);
                assert(self@.skip(i as int).skip(1) =~= self@.skip(i + 1));
            }
            if text::str_eq(self.entries[i].name.as_str(), name) {
                return Some(i);
            }
            i += 1;
        }
        proof {
            assert(self@.skip(n as int) =~= Seq::<CacheEntryView>::empty());
        }
        None
    }

    /// The latest (greatest) version for a name, as text.
    pub fn fetch_latest(&self, name: &str) -> (r: Result<String, ResolutionError>)
        requires
            cache_wf(self@),
        ensures
            match r {
                Ok(s) => {
                    &&& lookup_spec(self@, name@) matches Option::Some(l)
                    &&& lookup_spec(self@, name@).unwrap().len() > 0
                    &&& s@ == crate::version::version_chars(
                        lookup_spec(self@, name@).unwrap()[0],
                    )
                },
                Err(ResolutionError::NoIndex { name: n }) => n@ == name@ && lookup_spec(
                    self@,
                    name@,
                ) is None,
                Err(ResolutionError::NoVersions { name: n }) => n@ == name@ && lookup_spec(
                    self@,
                    name@,
                ) == Option::Some(Seq::<VersionView>::empty()),
                Err(_) => false,
            },
    {
        match self.find_entry(name) {
            Some(idx) => {
                let vs = &self.entries[idx].versions;
                if vs.len() == 0 {
                    proof {
                        assert(self@[idx as int].versions =~= Seq::<VersionView>::empty());
                    }
                    Err(ResolutionError::NoVersions { name: name.to_owned() })
                } else {
                    proof {
                        assert(vs[0]@ == self@[idx as int].versions[0]);
                    }
                    Ok(version_string(&vs[0]))
                }
            },
            None => Err(ResolutionError::NoIndex { name: name.to_owned() }),
        }
    }

    /// Resolve a version specification for a name: an exact version stands
    /// as it is; otherwise the ingested release list decides.
    #[verifier::loop_isolation(false)]
    pub fn resolve_version(&self, name: &str, spec: &str) -> (r: Result<Version, ResolutionError>)
        requires
            cache_wf(self@),
        ensures
            match r {
                Ok(v) => if parse_version_view(spec@) is Some {
                    parse_version_view(spec@) == Option::Some(v@)
                } else {
                    lookup_spec(self@, name@) matches Option::Some(l) && resolve_spec(l, spec@)
                        == Option::Some(v@)
                },
                Err(ResolutionError::NoIndex { name: n }) => {
                    &&& parse_version_view(spec@) is None
                    &&& n@ == name@
                    &&& lookup_spec(self@, name@) is None
                },
                Err(ResolutionError::Unresolvable { name: n, spec: sp }) => {
                    &&& parse_version_view(spec@) is None
                    &&& n@ == name@
                    &&& sp@ == spec@
                    &&& lookup_spec(self@, name@) matches Option::Some(l) && resolve_spec(
                        l,
                        spec@,
                    ) is None
                },
                Err(_) => false,
            },
    {
        match parse_version(spec) {
            Some(v) => {
                return Ok(v);
            },
            None => {},
        }
        let idx = match self.find_entry(name) {
            Some(i) => i,
            None => {
                return Err(ResolutionError::NoIndex { name: name.to_owned() });
            },
        };
        let list = &self.entries[idx].versions;
        let ghost dv = list.deep_view();
        proof {
            reveal_strlit("||");
            assert("||"@ =~= seq!['|', '|']);
        }
        let res: Option<Version> = if text::contains_str(spec, "||") {
            let clauses = text::split_all(spec, "||");
            let m = clauses.len();
            let ghost cls = clauses.deep_view();
            let mut best: Option<Version> = None;
            let mut i: usize = 0;
            proof {
                assert(cls.skip(0) =~= cls);
            }
            while i < m
                invariant
                    m == clauses.len(),
                    i <= m,
                    cls == clauses.deep_view(),
                    dv == list.deep_view(),
                    best_of_clauses(dv, cls, Option::None) == best_of_clauses(
                        dv,
                        cls.skip(i as int),
                        match best {
                            Some(b) => Option::Some(b@),
                            None => Option::None,
                        },
                    ),
                decreases m - i,
            {
                proof {
                    assert(cls.skip(i as int)[0] == cls[i as int]);
                    assert(clauses[i as int]@ == cls[i as int]);
                    assert(cls.skip(i as int).skip(1) =~= cls.skip(i + 1));
                }
                let clause = text::trim(clauses[i].as_str());
                if clause.as_str().unicode_len() > 0 {
                    match resolve_clause_exec(list, clause.as_str()) {
                        Some(v) => {
                            let take_new = match &best {
                                Some(b) => version_lt_exec(b, &v),
                                None => true,
                            };
                            if take_new {
                                best = Some(v);
                            }
                        },
                        None => {},
                    }
                }
                i += 1;
            }
            proof {
                assert(cls.skip(m as int) =~= Seq::<Seq<char>>::empty());
            }
            best
        } else {
            resolve_clause_exec(list, spec)
        };
        match res {
            Some(v) => Ok(v),
            None => Err(
                ResolutionError::Unresolvable { name: name.to_owned(), spec: spec.to_owned() },
            ),
        }
    }
}

/// Resolution is a pure function of the index contents and the query: the
/// index is never mutated by resolution, so a second identical query within
/// the same process yields the same version as the first.
pub proof fn lemma_resolve_deterministic(
    entries: Seq<CacheEntryView>,
    name: Seq<char>,
    spec_txt: Seq<char>,
    r1: Option<VersionView>,
    r2: Option<VersionView>,
)
    requires
        lookup_spec(entries, name) matches Option::Some(l) && r1 == resolve_spec(l, spec_txt),
        lookup_spec(entries, name) matches Option::Some(l) && r2 == resolve_spec(l, spec_txt),
    ensures
        r1 == r2,
{
}

} // verus!

verus! {

/// The version texts of a release listing: entries flagged as pre-releases
/// are dropped and any leading run of `v` is stripped from the tag.
pub open spec fn release_versions_spec(items: Seq<(String, bool)>) -> Seq<Seq<char>>
    decreases items.len(),
{
    if items.len() == 0 {
        Seq::empty()
    } else {
        let rest = release_versions_spec(items.skip(1));
        if items[0].1 {
            rest
        } else {
            seq![text::strip_leading(items[0].0@, 'v')] + rest
        }
    }
}

/// Turn `(tag, prerelease)` pairs from a release listing into version
/// texts.
#[verifier::loop_isolation(false)]
pub fn release_tags_to_versions(items: &Vec<(String, bool)>) -> (r: Vec<String>)
    ensures
        r.deep_view() == release_versions_spec(items@),
{
    let ghost iv = items@;
    let mut out: Vec<String> = Vec::new();
    let n = items.len();
    let mut i: usize = 0;
    proof {
        assert(iv.skip(0) =~= iv);
        assert(out.deep_view() =~= Seq::<Seq<char>>::empty());
        assert(out.deep_view() + release_versions_spec(iv.skip(0)) =~= release_versions_spec(iv));
    }
    while i < n
        invariant
            n == items.len(),
            i <= n,
            iv == items@,
            release_versions_spec(iv) == out.deep_view() + release_versions_spec(
                iv.skip(i as int),
            ),
        decreases n - i,
    {
        proof {
            assert(iv.skip(i as int)[0] == iv[i as int]);
            assert(iv.skip(i as int).skip(1) =~= iv.skip(i + 1));
        }
        let ghost before = out.deep_view();
        if !items[i].1 {
            let v = text::strip_leading_exec(items[i].0.as_str(), 'v');
            let ghost vv = v@;
            out.push(v);
            proof {
                assert(out.deep_view() =~~= before.push(vv));
                assert(before + (seq![vv] + release_versions_spec(iv.skip(i + 1))) =~= out.deep_view()
                    + release_versions_spec(iv.skip(i + 1)));
            }
        }
        i += 1;
    }
    proof {
        assert(iv.skip(n as int) =~= Seq::<(String, bool)>::empty());
        assert(release_versions_spec(iv.skip(n as int)) =~= Seq::<Seq<char>>::empty());
        assert(out.deep_view() + Seq::<Seq<char>>::empty() =~= out.deep_view());
    }
    out
}

/// The version texts of a listing whose tags carry a fixed prefix: only
/// prefixed, non-pre-release tags count, with the prefix removed.
pub open spec fn prefixed_versions_spec(items: Seq<(String, bool)>, prefix: Seq<char>) -> Seq<
    Seq<char>,
>
    decreases items.len(),
{
    if items.len() == 0 {
        Seq::empty()
    } else {
        let rest = prefixed_versions_spec(items.skip(1), prefix);
        let tag = items[0].0@;
        if !items[0].1 && prefix.len() <= tag.len() && tag.subrange(0, prefix.len() as int)
            == prefix {
            seq![tag.skip(prefix.len() as int)] + rest
        } else {
            rest
        }
    }
}

/// Turn `(tag, prerelease)` pairs with a fixed tag prefix into version
/// texts.
#[verifier::loop_isolation(false)]
pub fn prefixed_tags_to_versions(items: &Vec<(String, bool)>, prefix: &str) -> (r: Vec<String>)
    ensures
        r.deep_view() == prefixed_versions_spec(items@, prefix@),
{
    let ghost iv = items@;
    let mut out: Vec<String> = Vec::new();
    let n = items.len();
    let mut i: usize = 0;
    proof {
        assert(iv.skip(0) =~= iv);
        assert(out.deep_view() =~= Seq::<Seq<char>>::empty());
        assert(out.deep_view() + prefixed_versions_spec(iv.skip(0), prefix@)
            =~= prefixed_versions_spec(iv, prefix@));
    }
    while i < n
        invariant
            n == items.len(),
            i <= n,
            iv == items@,
            prefixed_versions_spec(iv, prefix@) == out.deep_view() + prefixed_versions_spec(
                iv.skip(i as int),
                prefix@,
            ),
        decreases n - i,
    {
        proof {
            assert(iv.skip(i as int)[0] == iv[i as int]);
            assert(iv.skip(i as int).skip(1) =~= iv.skip(i + 1));
        }
        let ghost before = out.deep_view();
        if !items[i].1 && text::starts_with(items[i].0.as_str(), prefix) {
            let tn = items[i].0.as_str().unicode_len();
            let pn = prefix.unicode_len();
            let v = items[i].0.as_str().substring_char(pn, tn).to_owned();
            let ghost vv = v@;
            proof {
                assert(vv =~= iv[i as int].0@.skip(prefix@.len() as int));
            }
            out.push(v);
            proof {
                assert(out.deep_view() =~~= before.push(vv));
                assert(before + (seq![vv] + prefixed_versions_spec(iv.skip(i + 1), prefix@))
                    =~= out.deep_view() + prefixed_versions_spec(iv.skip(i + 1), prefix@));
            }
        }
        i += 1;
    }
    proof {
        assert(iv.skip(n as int) =~= Seq::<(String, bool)>::empty());
        assert(prefixed_versions_spec(iv.skip(n as int), prefix@) =~= Seq::<Seq<char>>::empty());
        assert(out.deep_view() + Seq::<Seq<char>>::empty() =~= out.deep_view());
    }
    out
}

/// One scraped version text: non-empty, digits and dots, standing in the
/// page as `/{tool}/{text}/`.
pub open spec fn scraped_entry_ok(body: Seq<char>, tool: Seq<char>, v: Seq<char>) -> bool {
    &&& v.len() > 0
    &&& (forall|c: int| 0 <= c < v.len() ==> text::is_digit(#[trigger] v[c]) || v[c] == '.')
    &&& (exists|i: int| text::match_at(body, seq!['/'] + tool + seq!['/'] + v + seq!['/'], i))
}

/// Every scraped text is a version directory of the page.
pub open spec fn scraped_ok(body: Seq<char>, tool: Seq<char>, vs: Seq<Seq<char>>) -> bool {
    forall|k: int| 0 <= k < vs.len() ==> scraped_entry_ok(body, tool, #[trigger] vs[k])
}

/// A version directory occurrence at one position of the page: a non-empty
/// digits-and-dots text standing there as `/{tool}/{text}/`.
pub open spec fn scraped_entry_at(body: Seq<char>, tool: Seq<char>, v: Seq<char>, i: int) -> bool {
    &&& v.len() > 0
    &&& (forall|c: int| 0 <= c < v.len() ==> text::is_digit(#[trigger] v[c]) || v[c] == '.')
    &&& text::match_at(body, seq!['/'] + tool + seq!['/'] + v + seq!['/'], i)
}

/// Every version directory occurrence of the page is among the scraped
/// texts.
pub open spec fn scraped_complete(body: Seq<char>, tool: Seq<char>, vs: Seq<Seq<char>>) -> bool {
    forall|i: int, v: Seq<char>| #[trigger] scraped_entry_at(body, tool, v, i) ==> vs.contains(v)
}

/// An occurrence pins the page: the prefix stands at `i`, the version's
/// characters follow it, and a slash closes it strictly inside the page.
proof fn lemma_scrape_facts(body: Seq<char>, tool: Seq<char>, v: Seq<char>, i: int)
    requires
        scraped_entry_at(body, tool, v, i),
    ensures
        text::match_at(body, seq!['/'] + tool + seq!['/'], i),
        i + (seq!['/'] + tool + seq!['/']).len() + v.len() < body.len(),
        forall|c: int|
            0 <= c < v.len() ==> body[i + (seq!['/'] + tool + seq!['/']).len() + c] == #[trigger] v[c],
        body[i + (seq!['/'] + tool + seq!['/']).len() + v.len()] == '/',
{
    let p = seq!['/'] + tool + seq!['/'];
    let pat = p + v + seq!['/'];
    assert(pat.len() == p.len() + v.len() + 1);
    assert(body.subrange(i, i + pat.len() as int) == pat);
    assert forall|k: int| 0 <= k < pat.len() implies body[i + k] == pat[k] by {
        assert(body.subrange(i, i + pat.len() as int)[k] == body[i + k]);
    }
    assert forall|c: int| 0 <= c < v.len() implies body[i + p.len() + c] == #[trigger] v[c] by {
        assert(pat[p.len() + c] == (p + v)[p.len() + c]);
        assert((p + v)[p.len() + c] == v[c]);
    }
    assert(pat[p.len() + v.len() as int] == '/');
    assert(body.subrange(i, i + p.len() as int) =~= p);
}

/// The maximal digits-and-dots run after a prefix occurrence ends exactly
/// where any version directory occurrence there ends: the run is that
/// version's text.
proof fn lemma_scrape_segment(body: Seq<char>, tool: Seq<char>, v: Seq<char>, i: int, j: int)
    requires
        scraped_entry_at(body, tool, v, i),
        i + (seq!['/'] + tool + seq!['/']).len() <= j <= body.len(),
        forall|c: int|
            i + (seq!['/'] + tool + seq!['/']).len() <= c < j ==> text::is_digit(
                #[trigger] body[c],
            ) || body[c] == '.',
        j == body.len() || !(text::is_digit(body[j]) || body[j] == '.'),
    ensures
        j == i + (seq!['/'] + tool + seq!['/']).len() + v.len(),
        v == body.subrange(i + (seq!['/'] + tool + seq!['/']).len(), j),
{
    let pn = (seq!['/'] + tool + seq!['/']).len() as int;
    lemma_scrape_facts(body, tool, v, i);
    if j < i + pn + v.len() {
        assert(body[j] == v[j - (i + pn)]);
        assert(false);
    }
    if j > i + pn + v.len() {
        assert(text::is_digit(body[i + pn + v.len()]) || body[i + pn + v.len()] == '.');
        assert(false);
    }
    assert forall|c: int| 0 <= c < v.len() implies body.subrange(i + pn, j)[c] == #[trigger] v[c]
        by {
        assert(body[i + pn + c] == v[c]);
    }
    assert(v =~= body.subrange(i + pn, j));
}

/// Scrape the version directories of a release index page: every returned
/// text is non-empty, made of digits and dots, and stands in the page as
/// `/{tool}/{text}/`; and every text standing so in the page is returned.
#[verifier::loop_isolation(false)]
#[verifier::rlimit(100)]
pub fn hashicorp_versions(body: &str, tool: &str) -> (r: Vec<String>)
    ensures
        scraped_ok(body@, tool@, r.deep_view()),
        scraped_complete(body@, tool@, r.deep_view()),
{
    proof {
        reveal_strlit("/");
        assert("/"@ =~= seq!['/']);
    }
    let mut prefix = "/".to_owned();
    prefix.append(tool);
    prefix.append("/");
    proof {
        assert(prefix@ == seq!['/'] + tool@ + seq!['/']);
    }
    let n = body.unicode_len();
    let pn = prefix.as_str().unicode_len();
    let mut out: Vec<String> = Vec::new();
    let mut i: usize = 0;
    if pn > n {
        proof {
            assert forall|i0: int, v: Seq<char>|
                #[trigger] scraped_entry_at(body@, tool@, v, i0) implies out.deep_view().contains(
                v,
            ) by {
                lemma_scrape_facts(body@, tool@, v, i0);
            }
        }
        return out;
    }
    while i <= n - pn
        invariant
            n == body@.len(),
            pn == prefix@.len(),
            pn <= n,
            prefix@ == seq!['/'] + tool@ + seq!['/'],
            i <= n,
            scraped_ok(body@, tool@, out.deep_view()),
            forall|i0: int, v: Seq<char>|
                #[trigger] scraped_entry_at(body@, tool@, v, i0) && i0 < i
                    ==> out.deep_view().contains(v),
        decreases n - i,
    {
        let ghost pre = out.deep_view();
        if text::starts_with_at(body, prefix.as_str(), i) {
            let mut j = i + pn;
            while j < n && is_digit_or_dot(body.get_char(j))
                invariant
                    n == body@.len(),
                    i + pn <= j <= n,
                    forall|c: int| i + pn <= c < j ==> text::is_digit(#[trigger] body@[c])
                        || body@[c] == '.',
                decreases n - j,
            {
                j += 1;
            }
            if j > i + pn && j < n && body.get_char(j) == '/' {
                let seg = body.substring_char(i + pn, j).to_owned();
                let ghost sv = seg@;
                proof {
                    assert(sv =~= body@.subrange(i + pn, j as int));
                    assert(sv.len() > 0);
                    assert forall|c: int| 0 <= c < sv.len() implies text::is_digit(
                        #[trigger] sv[c],
                    ) || sv[c] == '.' by {
                        assert(sv[c] == body@[i + pn + c]);
                    }
                    assert(text::match_at(body@, prefix@, i as int));
                    let pat = seq!['/'] + tool@ + seq!['/'] + sv + seq!['/'];
                    assert(body@.subrange(i as int, i + pat.len() as int) =~= pat);
                    assert(text::match_at(body@, pat, i as int));
                    assert(scraped_entry_ok(body@, tool@, sv));
                }
                out.push(seg);
                proof {
                    assert(out.deep_view() =~~= pre.push(sv));
                    assert forall|k: int| 0 <= k < out.deep_view().len() implies scraped_entry_ok(
                        body@,
                        tool@,
                        #[trigger] out.deep_view()[k],
                    ) by {
                        if k < pre.len() {
                            assert(out.deep_view()[k] == pre[k]);
                        } else {
                            assert(out.deep_view()[k] == sv);
                        }
                    }
                    assert forall|i0: int, v: Seq<char>|
                        #[trigger] scraped_entry_at(body@, tool@, v, i0) && i0 < i + 1 implies out
                        .deep_view().contains(v) by {
                        if i0 < i {
                            let k = choose|k: int| 0 <= k < pre.len() && pre[k] == v;
                            assert(out.deep_view()[k] == v);
                        } else {
                            lemma_scrape_segment(body@, tool@, v, i as int, j as int);
                            assert(v =~= sv);
                            assert(out.deep_view()[pre.len() as int] == sv);
                        }
                    }
                }
            } else {
                proof {
                    assert forall|i0: int, v: Seq<char>|
                        #[trigger] scraped_entry_at(body@, tool@, v, i0) && i0 < i + 1 implies out
                        .deep_view().contains(v) by {
                        if i0 == i {
                            lemma_scrape_segment(body@, tool@, v, i as int, j as int);
                            lemma_scrape_facts(body@, tool@, v, i as int);
                            assert(j > i + pn && j < n && body@[j as int] == '/');
                            assert(false);
                        }
                    }
                }
            }
        } else {
            proof {
                assert forall|i0: int, v: Seq<char>|
                    #[trigger] scraped_entry_at(body@, tool@, v, i0) && i0 < i + 1 implies out
                    .deep_view().contains(v) by {
                    if i0 == i {
                        lemma_scrape_facts(body@, tool@, v, i0);
                        assert(false);
                    }
                }
            }
        }
        i += 1;
    }
    proof {
        assert forall|i0: int, v: Seq<char>|
            #[trigger] scraped_entry_at(body@, tool@, v, i0) implies out.deep_view().contains(
            v,
        ) by {
            lemma_scrape_facts(body@, tool@, v, i0);
            assert(i0 < i);
        }
    }
    out
}

/// A digit or a dot.
fn is_digit_or_dot(c: char) -> (r: bool)
    ensures
        r == (text::is_digit(c) || c == '.'),
{
    let u = c as u32;
    (48 <= u && u <= 57) || c == '.'
}

} // verus!

use vstd::string::StrSliceExecFns;
use vstd::string::StringExecFns;
