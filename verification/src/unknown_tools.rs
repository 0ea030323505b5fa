//! User-declared tools: decoding `[tools.<name>]` tables and legacy
//! `[[tools]]` arrays from the manifest tree, validating them, and
//! augmenting implicit binary paths for known archive layouts.
use vstd::prelude::*;

use crate::config::{
    ArchSources, ManifestError, PerOsArchSources, PerOsSources, Tool, ToolKind,
};
use crate::lock::{opt_text_matches, opt_text_ok, req_text_matches};
use crate::text;
use crate::toml_model::{value_lookup, value_lookup_spec, TomlValue};

verus! {

/// The `kind` field is absent or one of the two accepted words.
pub open spec fn kind_ok(t: TomlValue) -> bool {
    match value_lookup_spec(t, "kind"@) {
        Option::Some(TomlValue::Text(s)) => s@ == "archive"@ || s@ == "direct"@,
        Option::Some(_) => false,
        Option::None => true,
    }
}

/// The decoded kind agrees with the `kind` field (absent means archive).
pub open spec fn kind_matches(t: TomlValue, k: ToolKind) -> bool {
    match value_lookup_spec(t, "kind"@) {
        Option::Some(TomlValue::Text(s)) => (s@ == "archive"@ && k == ToolKind::Archive) || (s@
            == "direct"@ && k == ToolKind::Direct),
        Option::Some(_) => false,
        Option::None => k == ToolKind::Archive,
    }
}

/// A per-arch table is absent-or-text on every spelling.
pub open spec fn arch_sources_ok(v: TomlValue) -> bool {
    &&& v matches TomlValue::Table(_)
    &&& opt_text_ok(v, "amd64"@)
    &&& opt_text_ok(v, "arm64"@)
    &&& opt_text_ok(v, "x86_64"@)
    &&& opt_text_ok(v, "aarch64"@)
}

/// A decoded per-arch table agrees with its tree.
pub open spec fn arch_sources_match(v: TomlValue, a: ArchSources) -> bool {
    &&& opt_text_matches(v, "amd64"@, a.amd64)
    &&& opt_text_matches(v, "arm64"@, a.arm64)
    &&& opt_text_matches(v, "x86_64"@, a.x86_64)
    &&& opt_text_matches(v, "aarch64"@, a.aarch64)
}

/// The `per_os` field is absent or a table of optional texts.
pub open spec fn per_os_ok(t: TomlValue) -> bool {
    match value_lookup_spec(t, "per_os"@) {
        Option::Some(v) => v matches TomlValue::Table(_) && opt_text_ok(v, "linux"@) && opt_text_ok(
            v,
            "mac"@,
        ) && opt_text_ok(v, "windows"@),
        Option::None => true,
    }
}

/// The decoded `per_os` agrees with its field.
pub open spec fn per_os_matches(t: TomlValue, p: Option<PerOsSources>) -> bool {
    match value_lookup_spec(t, "per_os"@) {
        Option::Some(v) => p matches Option::Some(q) && opt_text_matches(v, "linux"@, q.linux)
            && opt_text_matches(v, "mac"@, q.mac) && opt_text_matches(v, "windows"@, q.windows),
        Option::None => p is None,
    }
}

/// One OS slot of `per_os_arch` is absent or a valid per-arch table.
pub open spec fn os_arch_slot_ok(v: TomlValue, key: Seq<char>) -> bool {
    match value_lookup_spec(v, key) {
        Option::Some(w) => arch_sources_ok(w),
        Option::None => true,
    }
}

/// A decoded OS slot agrees with its field.
pub open spec fn os_arch_slot_matches(v: TomlValue, key: Seq<char>, f: Option<ArchSources>)
    -> bool {
    match value_lookup_spec(v, key) {
        Option::Some(w) => f matches Option::Some(a) && arch_sources_match(w, a),
        Option::None => f is None,
    }
}

/// The `per_os_arch` field is absent or a table of valid per-arch tables.
pub open spec fn per_os_arch_ok(t: TomlValue) -> bool {
    match value_lookup_spec(t, "per_os_arch"@) {
        Option::Some(v) => v matches TomlValue::Table(_) && os_arch_slot_ok(v, "linux"@)
            && os_arch_slot_ok(v, "mac"@) && os_arch_slot_ok(v, "windows"@),
        Option::None => true,
    }
}

/// The decoded `per_os_arch` agrees with its field.
pub open spec fn per_os_arch_matches(t: TomlValue, p: Option<PerOsArchSources>) -> bool {
    match value_lookup_spec(t, "per_os_arch"@) {
        Option::Some(v) => p matches Option::Some(q) && os_arch_slot_matches(v, "linux"@, q.linux)
            && os_arch_slot_matches(v, "mac"@, q.mac) && os_arch_slot_matches(
            v,
            "windows"@,
            q.windows,
        ),
        Option::None => p is None,
    }
}

/// A tool item decodes: required text `version` and `source`, both
/// non-blank; a name from the item or the given default; well-shaped
/// optional fields.
pub open spec fn tool_tree_ok(item: TomlValue, dflt: Option<Seq<char>>) -> bool {
    &&& (match value_lookup_spec(item, "name"@) {
        Option::Some(TomlValue::Text(_)) => true,
        Option::Some(_) => false,
        Option::None => dflt is Some,
    })
    &&& (value_lookup_spec(item, "version"@) matches Option::Some(v) && v matches TomlValue::Text(
        s,
    ) && text::trim_spec(s@).len() > 0)
    &&& (value_lookup_spec(item, "source"@) matches Option::Some(v) && v matches TomlValue::Text(
        s,
    ) && text::trim_spec(s@).len() > 0)
    &&& kind_ok(item)
    &&& opt_text_ok(item, "sha256"@)
    &&& opt_text_ok(item, "binary"@)
    &&& opt_text_ok(item, "install_dir"@)
    &&& per_os_ok(item)
    &&& per_os_arch_ok(item)
}

/// A decoded tool agrees with its item.
pub open spec fn tool_matches(item: TomlValue, dflt: Option<Seq<char>>, t: Tool) -> bool {
    &&& (match value_lookup_spec(item, "name"@) {
        Option::Some(TomlValue::Text(s)) => t.name@ == s@,
        Option::Some(_) => false,
        Option::None => dflt matches Option::Some(d) && t.name@ == d,
    })
    &&& req_text_matches(item, "version"@, t.version)
    &&& req_text_matches(item, "source"@, t.source)
    &&& kind_matches(item, t.kind)
    &&& opt_text_matches(item, "sha256"@, t.sha256)
    &&& opt_text_matches(item, "binary"@, t.binary)
    &&& opt_text_matches(item, "install_dir"@, t.install_dir)
    &&& per_os_matches(item, t.per_os)
    &&& per_os_arch_matches(item, t.per_os_arch)
}

fn decode_opt_text_m(t: &TomlValue, key: &str) -> (r: Result<Option<String>, ManifestError>)
    ensures
        match r {
            Ok(f) => opt_text_ok(*t, key@) && opt_text_matches(*t, key@, f),
            Err(_) => !opt_text_ok(*t, key@),
        },
{
    match value_lookup(t, key) {
        Some(v) => match v.as_text() {
            Some(s) => Ok(Some(s.clone())),
            None => Err(ManifestError::BadToolEntry { name: "".to_owned() }),
        },
        None => Ok(None),
    }
}

fn decode_arch_sources(v: &TomlValue) -> (r: Result<ArchSources, ManifestError>)
    ensures
        match r {
            Ok(a) => arch_sources_ok(*v) && arch_sources_match(*v, a),
            Err(_) => !arch_sources_ok(*v),
        },
{
    match v.as_table() {
        Some(_) => {},
        None => {
            return Err(ManifestError::BadToolEntry { name: "".to_owned() });
        },
    }
    let amd64 = match decode_opt_text_m(v, "amd64") {
        Ok(f) => f,
        Err(e) => {
            return Err(e);
        },
    };
    let arm64 = match decode_opt_text_m(v, "arm64") {
        Ok(f) => f,
        Err(e) => {
            return Err(e);
        },
    };
    let x86_64 = match decode_opt_text_m(v, "x86_64") {
        Ok(f) => f,
        Err(e) => {
            return Err(e);
        },
    };
    let aarch64 = match decode_opt_text_m(v, "aarch64") {
        Ok(f) => f,
        Err(e) => {
            return Err(e);
        },
    };
    Ok(ArchSources { amd64, arm64, x86_64, aarch64 })
}

fn decode_os_arch_slot(v: &TomlValue, key: &str) -> (r: Result<
    Option<ArchSources>,
    ManifestError,
>)
    ensures
        match r {
            Ok(f) => os_arch_slot_ok(*v, key@) && os_arch_slot_matches(*v, key@, f),
            Err(_) => !os_arch_slot_ok(*v, key@),
        },
{
    match value_lookup(v, key) {
        Some(w) => match decode_arch_sources(w) {
            Ok(a) => Ok(Some(a)),
            Err(e) => Err(e),
        },
        None => Ok(None),
    }
}

/// Decode one tool item, defaulting the name to the table key when given.
pub fn decode_tool(item: &TomlValue, dflt: Option<&str>) -> (r: Result<Tool, ManifestError>)
    ensures
        match r {
            Ok(t) => tool_tree_ok(
                *item,
                match dflt {
                    Some(d) => Option::Some(d@),
                    None => Option::None,
                },
            ) && tool_matches(
                *item,
                match dflt {
                    Some(d) => Option::Some(d@),
                    None => Option::None,
                },
                t,
            ),
            Err(_) => !tool_tree_ok(
                *item,
                match dflt {
                    Some(d) => Option::Some(d@),
                    None => Option::None,
                },
            ),
        },
{
    let name: String = match value_lookup(item, "name") {
        Some(v) => match v.as_text() {
            Some(s) => s.clone(),
            None => {
                return Err(ManifestError::BadToolEntry { name: "".to_owned() });
            },
        },
        None => match dflt {
            Some(d) => d.to_owned(),
            None => {
                return Err(ManifestError::BadToolEntry { name: "".to_owned() });
            },
        },
    };
    let version: String = match value_lookup(item, "version") {
        Some(v) => match v.as_text() {
            Some(s) => s.clone(),
            None => {
                return Err(ManifestError::BadToolEntry { name });
            },
        },
        None => {
            return Err(ManifestError::BadToolEntry { name });
        },
    };
    if text::trim(version.as_str()).as_str().unicode_len() == 0 {
        return Err(ManifestError::MissingVersion { name });
    }
    let source: String = match value_lookup(item, "source") {
        Some(v) => match v.as_text() {
            Some(s) => s.clone(),
            None => {
                return Err(ManifestError::BadToolEntry { name });
            },
        },
        None => {
            return Err(ManifestError::BadToolEntry { name });
        },
    };
    if text::trim(source.as_str()).as_str().unicode_len() == 0 {
        return Err(ManifestError::MissingSource { name });
    }
    let kind: ToolKind = match value_lookup(item, "kind") {
        Some(v) => match v.as_text() {
            Some(s) => {
                if text::str_eq(s.as_str(), "archive") {
                    ToolKind::Archive
                } else if text::str_eq(s.as_str(), "direct") {
                    ToolKind::Direct
                } else {
                    return Err(ManifestError::BadToolEntry { name });
                }
            },
            None => {
                return Err(ManifestError::BadToolEntry { name });
            },
        },
        None => ToolKind::Archive,
    };
    let sha256 = match decode_opt_text_m(item, "sha256") {
        Ok(f) => f,
        Err(_) => {
            return Err(ManifestError::BadToolEntry { name });
        },
    };
    let binary = match decode_opt_text_m(item, "binary") {
        Ok(f) => f,
        Err(_) => {
            return Err(ManifestError::BadToolEntry { name });
        },
    };
    let install_dir = match decode_opt_text_m(item, "install_dir") {
        Ok(f) => f,
        Err(_) => {
            return Err(ManifestError::BadToolEntry { name });
        },
    };
    let per_os: Option<PerOsSources> = match value_lookup(item, "per_os") {
        Some(v) => {
            match v.as_table() {
                Some(_) => {},
                None => {
                    return Err(ManifestError::BadToolEntry { name });
                },
            }
            let linux = match decode_opt_text_m(v, "linux") {
                Ok(f) => f,
                Err(_) => {
                    return Err(ManifestError::BadToolEntry { name });
                },
            };
            let mac = match decode_opt_text_m(v, "mac") {
                Ok(f) => f,
                Err(_) => {
                    return Err(ManifestError::BadToolEntry { name });
                },
            };
            let windows = match decode_opt_text_m(v, "windows") {
                Ok(f) => f,
                Err(_) => {
                    return Err(ManifestError::BadToolEntry { name });
                },
            };
            Some(PerOsSources { linux, mac, windows })
        },
        None => None,
    };
    let per_os_arch: Option<PerOsArchSources> = match value_lookup(item, "per_os_arch") {
        Some(v) => {
            match v.as_table() {
                Some(_) => {},
                None => {
                    return Err(ManifestError::BadToolEntry { name });
                },
            }
            let linux = match decode_os_arch_slot(v, "linux") {
                Ok(f) => f,
                Err(_) => {
                    return Err(ManifestError::BadToolEntry { name });
                },
            };
            let mac = match decode_os_arch_slot(v, "mac") {
                Ok(f) => f,
                Err(_) => {
                    return Err(ManifestError::BadToolEntry { name });
                },
            };
            let windows = match decode_os_arch_slot(v, "windows") {
                Ok(f) => f,
                Err(_) => {
                    return Err(ManifestError::BadToolEntry { name });
                },
            };
            Some(PerOsArchSources { linux, mac, windows })
        },
        None => None,
    };
    Ok(Tool { name, version, kind, source, sha256, binary, install_dir, per_os, per_os_arch })
}

/// Every table item of a legacy array decodes.
pub open spec fn legacy_list_ok(items: Seq<TomlValue>) -> bool {
    forall|i: int|
        0 <= i < items.len() ==> ((#[trigger] items[i]) matches TomlValue::Table(_)
            ==> tool_tree_ok(items[i], Option::None))
}

/// The user-declared tools of a manifest tree decode: a legacy array's
/// table items each carry their own name; a keyed table's table values may
/// default their name to the key; non-table items and values are passed
/// over; any other `tools` shape, or no `tools` at all, declares nothing.
pub open spec fn unknown_tools_ok(root: TomlValue) -> bool {
    match value_lookup_spec(root, "tools"@) {
        Option::Some(TomlValue::List(items)) => legacy_list_ok(items@),
        Option::Some(TomlValue::Table(es)) => forall|i: int|
            0 <= i < es@.len() ==> ((#[trigger] es@[i]).1 matches TomlValue::Table(_)
                ==> tool_tree_ok(es@[i].1, Option::Some(es@[i].0@))),
        _ => true,
    }
}

/// The tools parsed from a legacy array, in order, skipping non-tables.
pub open spec fn legacy_tools_match(items: Seq<TomlValue>, ts: Seq<Tool>) -> bool
    decreases items.len(),
{
    if items.len() == 0 {
        ts.len() == 0
    } else if items[0] matches TomlValue::Table(_) {
        ts.len() > 0 && tool_matches(items[0], Option::None, ts[0]) && legacy_tools_match(
            items.skip(1),
            ts.skip(1),
        )
    } else {
        legacy_tools_match(items.skip(1), ts)
    }
}

/// The tools parsed from a keyed table, in order, skipping non-tables.
pub open spec fn keyed_tools_match(es: Seq<(String, TomlValue)>, ts: Seq<Tool>) -> bool
    decreases es.len(),
{
    if es.len() == 0 {
        ts.len() == 0
    } else if es[0].1 matches TomlValue::Table(_) {
        ts.len() > 0 && tool_matches(es[0].1, Option::Some(es[0].0@), ts[0]) && keyed_tools_match(
            es.skip(1),
            ts.skip(1),
        )
    } else {
        keyed_tools_match(es.skip(1), ts)
    }
}

/// The declared tool list of the whole tree.
pub open spec fn unknown_tools_match(root: TomlValue, ts: Seq<Tool>) -> bool {
    match value_lookup_spec(root, "tools"@) {
        Option::Some(TomlValue::List(items)) => legacy_tools_match(items@, ts),
        Option::Some(TomlValue::Table(es)) => keyed_tools_match(es@, ts),
        _ => ts.len() == 0,
    }
}

/// The manifest uses the legacy `[[tools]]` array form.
pub fn has_legacy_tools(root: &TomlValue) -> (r: bool)
    ensures
        r == (value_lookup_spec(*root, "tools"@) matches Option::Some(v) && v matches
            TomlValue::List(items) && items@.len() > 0),
{
    match value_lookup(root, "tools") {
        Some(v) => match v.as_list() {
            Some(items) => items.len() > 0,
            None => false,
        },
        None => false,
    }
}

/// Decode the tools of a legacy array value.
#[verifier::loop_isolation(false)]
pub fn parse_legacy_list(container: &TomlValue) -> (r: Result<Vec<Tool>, ManifestError>)
    requires
        container matches TomlValue::List(_),
    ensures
        match (r, *container) {
            (Ok(ts), TomlValue::List(items)) => legacy_list_ok(items@) && legacy_tools_match(
                items@,
                ts@,
            ),
            (Err(_), TomlValue::List(items)) => !legacy_list_ok(items@),
            _ => false,
        },
{
    let items = match container.as_list() {
        Some(items) => items,
        None => {
            proof {
                assert(false);
            }
            return Err(ManifestError::BadToolEntry { name: "".to_owned() });
        },
    };
    let mut out: Vec<Tool> = Vec::new();
    let ghost iv = items@;
    let n = items.len();
    let mut i: usize = 0;
    proof {
        assert(iv.skip(0) =~= iv);
    }
    while i < n
        invariant
            n == items.len(),
            i <= n,
            iv == items@,
            forall|j: int|
                0 <= j < i ==> ((#[trigger] iv[j]) matches TomlValue::Table(_) ==> tool_tree_ok(
                    iv[j],
                    Option::None,
                )),
            forall|rest: Seq<Tool>|
                legacy_tools_match(iv.skip(i as int), rest) ==> legacy_tools_match(iv, out@ + rest),
        decreases n - i,
    {
        proof {
            assert(iv.skip(i as int)[0] == iv[i as int]);
            assert(iv.skip(i as int).skip(1) =~= iv.skip(i + 1));
        }
        let ghost before = out@;
        match items[i].as_table() {
            Some(_) => {
                match decode_tool(&items[i], None) {
                    Ok(t) => {
                        let ghost tv = t;
                        out.push(t);
                        proof {
                            assert(out@ =~= before.push(tv));
                            assert forall|rest: Seq<Tool>|
                                legacy_tools_match(iv.skip(i + 1), rest) implies legacy_tools_match(
                                iv,
                                out@ + rest,
                            ) by {
                                assert((seq![tv] + rest)[0] == tv);
                                assert((seq![tv] + rest).skip(1) =~= rest);
                                assert(legacy_tools_match(iv.skip(i as int), seq![tv] + rest));
                                assert(before + (seq![tv] + rest) =~= out@ + rest);
                            }
                        }
                    },
                    Err(e) => {
                        return Err(e);
                    },
                }
            },
            None => {
                proof {
                    assert forall|rest: Seq<Tool>|
                        legacy_tools_match(iv.skip(i + 1), rest) implies legacy_tools_match(
                        iv,
                        out@ + rest,
                    ) by {
                        assert(legacy_tools_match(iv.skip(i as int), rest));
                    }
                }
            },
        }
        i += 1;
    }
    proof {
        assert(iv.skip(n as int) =~= Seq::<TomlValue>::empty());
        assert(legacy_tools_match(iv.skip(n as int), Seq::<Tool>::empty()));
        assert(out@ + Seq::<Tool>::empty() =~= out@);
    }
    Ok(out)
}

/// Decode the user-declared tools of a manifest tree.
#[verifier::loop_isolation(false)]
pub fn parse_unknown(root: &TomlValue) -> (r: Result<Vec<Tool>, ManifestError>)
    ensures
        match r {
            Ok(ts) => unknown_tools_ok(*root) && unknown_tools_match(*root, ts@),
            Err(_) => !unknown_tools_ok(*root),
        },
{
    let container = match value_lookup(root, "tools") {
        Some(v) => v,
        None => {
            let empty: Vec<Tool> = Vec::new();
            proof {
                assert(empty@ =~= Seq::<Tool>::empty());
            }
            return Ok(empty);
        },
    };
    let mut out: Vec<Tool> = Vec::new();
    match container.as_list() {
        Some(_) => {
            return parse_legacy_list(container);
        },
        None => {
            match container.as_table() {
                Some(es) => {
                    let ghost ev = es@;
                    let n = es.len();
                    let mut i: usize = 0;
                    proof {
                        assert(ev.skip(0) =~= ev);
                    }
                    while i < n
                        invariant
                            n == es.len(),
                            i <= n,
                            ev == es@,
                            forall|j: int|
                                0 <= j < i ==> ((#[trigger] ev[j]).1 matches TomlValue::Table(_)
                                    ==> tool_tree_ok(ev[j].1, Option::Some(ev[j].0@))),
                            forall|rest: Seq<Tool>|
                                keyed_tools_match(ev.skip(i as int), rest) ==> keyed_tools_match(
                                    ev,
                                    out@ + rest,
                                ),
                        decreases n - i,
                    {
                        proof {
                            assert(ev.skip(i as int)[0] == ev[i as int]);
                            assert(ev.skip(i as int).skip(1) =~= ev.skip(i + 1));
                        }
                        let ghost before = out@;
                        match es[i].1.as_table() {
                            Some(_) => {
                                match decode_tool(&es[i].1, Some(es[i].0.as_str())) {
                                    Ok(t) => {
                                        let ghost tv = t;
                                        out.push(t);
                                        proof {
                                            assert(out@ =~= before.push(tv));
                                            assert forall|rest: Seq<Tool>|
                                                keyed_tools_match(ev.skip(i + 1), rest) implies
                                                keyed_tools_match(ev, out@ + rest) by {
                                                assert((seq![tv] + rest)[0] == tv);
                                                assert((seq![tv] + rest).skip(1) =~= rest);
                                                assert(keyed_tools_match(
                                                    ev.skip(i as int),
                                                    seq![tv] + rest,
                                                ));
                                                assert(before + (seq![tv] + rest) =~= out@ + rest);
                                            }
                                        }
                                    },
                                    Err(e) => {
                                        return Err(e);
                                    },
                                }
                            },
                            None => {
                                proof {
                                    assert forall|rest: Seq<Tool>|
                                        keyed_tools_match(ev.skip(i + 1), rest) implies
                                        keyed_tools_match(ev, out@ + rest) by {
                                        assert(keyed_tools_match(ev.skip(i as int), rest));
                                    }
                                }
                            },
                        }
                        i += 1;
                    }
                    proof {
                        assert(ev.skip(n as int) =~= Seq::<(String, TomlValue)>::empty());
                        assert(keyed_tools_match(ev.skip(n as int), Seq::<Tool>::empty()));
                        assert(out@ + Seq::<Tool>::empty() =~= out@);
                    }
                    Ok(out)
                },
                None => {
                    let empty: Vec<Tool> = Vec::new();
                    proof {
                        assert(empty@ =~= Seq::<Tool>::empty());
                    }
                    Ok(empty)
                },
            }
        },
    }
}

/// The binary path a tool implicitly gains for known archive layouts.
pub open spec fn augmented_binary(t: Tool, os: Seq<char>, arch: Seq<char>) -> Option<Seq<char>> {
    match t.binary {
        Option::Some(b) => Option::Some(b@),
        Option::None => if t.name@ == "helm"@ {
            Option::Some(os + "-"@ + arch + "/helm"@)
        } else if t.name@ == "gh"@ {
            Option::Some("gh_"@ + t.version@ + "_"@ + os + "_"@ + arch + "/bin/gh"@)
        } else {
            Option::None
        },
    }
}

/// Fill the implicit in-archive binary paths of `helm` and `gh` for a host;
/// everything else is untouched.
#[verifier::loop_isolation(false)]
pub fn augment_binary_fields(tools: &mut Vec<Tool>, os: &str, arch: &str)
    ensures
        final(tools).len() == old(tools).len(),
        forall|i: int|
            0 <= i < final(tools)@.len() ==> {
                let t0 = old(tools)@[i];
                let t1 = #[trigger] final(tools)@[i];
                &&& t1.name == t0.name
                &&& t1.version == t0.version
                &&& t1.kind == t0.kind
                &&& t1.source == t0.source
                &&& t1.sha256 == t0.sha256
                &&& t1.install_dir == t0.install_dir
                &&& t1.per_os == t0.per_os
                &&& t1.per_os_arch == t0.per_os_arch
                &&& (match t1.binary {
                    Option::Some(b) => augmented_binary(t0, os@, arch@) == Option::Some(b@),
                    Option::None => augmented_binary(t0, os@, arch@) is None,
                })
            },
{
    let n = tools.len();
    let mut i: usize = 0;
    while i < n
        invariant
            n == tools.len(),
            i <= n,
            forall|j: int| i <= j < n ==> #[trigger] tools@[j] == old(tools)@[j],
            forall|j: int|
                0 <= j < i ==> {
                    let t0 = old(tools)@[j];
                    let t1 = #[trigger] tools@[j];
                    &&& t1.name == t0.name
                    &&& t1.version == t0.version
                    &&& t1.kind == t0.kind
                    &&& t1.source == t0.source
                    &&& t1.sha256 == t0.sha256
                    &&& t1.install_dir == t0.install_dir
                    &&& t1.per_os == t0.per_os
                    &&& t1.per_os_arch == t0.per_os_arch
                    &&& (match t1.binary {
                        Option::Some(b) => augmented_binary(t0, os@, arch@) == Option::Some(b@),
                        Option::None => augmented_binary(t0, os@, arch@) is None,
                    })
                },
        decreases n - i,
    {
        let is_none = tools[i].binary.is_none();
        if is_none {
            if text::str_eq(tools[i].name.as_str(), "helm") {
                let mut b = os.to_owned();
                b.append("-");
                b.append(arch);
                b.append("/helm");
                proof {
                    assert(b@ == os@ + "-"@ + arch@ + "/helm"@);
                }
                let mut t = tools[i].duplicate();
                t.binary = Some(b);
                tools.set(i, t);
            } else if text::str_eq(tools[i].name.as_str(), "gh") {
                let mut b = "gh_".to_owned();
                b.append(tools[i].version.as_str());
                b.append("_");
                b.append(os);
                b.append("_");
                b.append(arch);
                b.append("/bin/gh");
                proof {
                    assert(b@ == "gh_"@ + old(tools)@[i as int].version@ + "_"@ + os@ + "_"@
                        + arch@ + "/bin/gh"@);
                }
                let mut t = tools[i].duplicate();
                t.binary = Some(b);
                tools.set(i, t);
            }
        }
        i += 1;
    }
}

} // verus!

use vstd::string::StrSliceExecFns;
use vstd::string::StringExecFns;
