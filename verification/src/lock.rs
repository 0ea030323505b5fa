//! The lock file model (schema 3), its legacy upgrade path, and the entry
//! builder with the cross-platform source matrix.  Lock data is exchanged
//! with the surrounding program as an abstract TOML value tree.
use vstd::prelude::*;

use crate::text;
use crate::toml_model::{table_lookup, table_lookup_spec, value_lookup, value_lookup_spec, TomlValue};

verus! {

/// One locked tool.
pub struct LockedEntry {
    pub version: String,
    pub requested_version: Option<String>,
    pub source: String,
    pub source_template: Option<String>,
    pub platform: Option<String>,
    pub sources: Option<Vec<(String, String)>>,
    pub sha256: Option<String>,
    pub digest: Option<String>,
}

/// The lock file: a generation stamp, the writing tool's version, the
/// schema number, and the locked tools keyed by name.
pub struct LockFile {
    pub generated: String,
    pub tlk_version: Option<String>,
    pub schema: Option<u32>,
    pub tools: Vec<(String, LockedEntry)>,
}

/// Why a lock tree was refused.
#[derive(Debug)]
pub enum LockError {
    /// Neither the current schema nor the legacy one fits.
    UnsupportedSchema,
}

/// Looking a key up after appending one entry: earlier bindings win.
pub broadcast proof fn lemma_lookup_push(
    es: Seq<(String, TomlValue)>,
    e: (String, TomlValue),
    key: Seq<char>,
)
    ensures
        #[trigger] table_lookup_spec(es.push(e), key) == (if table_lookup_spec(es, key) is Some {
            table_lookup_spec(es, key)
        } else if e.0@ == key {
            Option::Some(e.1)
        } else {
            Option::None
        }),
    decreases es.len(),
{
    if es.len() == 0 {
        assert(es.push(e)[0] == e);
        assert(es.push(e).skip(1) =~= Seq::<(String, TomlValue)>::empty());
        assert(table_lookup_spec(Seq::<(String, TomlValue)>::empty(), key) is None);
        assert(table_lookup_spec(es.push(e), key) == (if es.push(e)[0].0@ == key {
            Option::Some(es.push(e)[0].1)
        } else {
            table_lookup_spec(es.push(e).skip(1), key)
        }));
    } else {
        assert(es.push(e)[0] == es[0]);
        assert(es.push(e).skip(1) =~= es.skip(1).push(e));
        lemma_lookup_push(es.skip(1), e, key);
    }
}


/// The push equation, instantiated for every key the lock model uses.
proof fn lemma_lookup_push_all(es: Seq<(String, TomlValue)>, e: (String, TomlValue))
    ensures
        table_lookup_spec(es.push(e), "version"@) == (if table_lookup_spec(es, "version"@) is Some {
            table_lookup_spec(es, "version"@)
        } else if e.0@ == "version"@ {
            Option::Some(e.1)
        } else {
            Option::None
        }),
        table_lookup_spec(es.push(e), "requested_version"@) == (if table_lookup_spec(
            es,
            "requested_version"@,
        ) is Some {
            table_lookup_spec(es, "requested_version"@)
        } else if e.0@ == "requested_version"@ {
            Option::Some(e.1)
        } else {
            Option::None
        }),
        table_lookup_spec(es.push(e), "source"@) == (if table_lookup_spec(es, "source"@) is Some {
            table_lookup_spec(es, "source"@)
        } else if e.0@ == "source"@ {
            Option::Some(e.1)
        } else {
            Option::None
        }),
        table_lookup_spec(es.push(e), "source_template"@) == (if table_lookup_spec(
            es,
            "source_template"@,
        ) is Some {
            table_lookup_spec(es, "source_template"@)
        } else if e.0@ == "source_template"@ {
            Option::Some(e.1)
        } else {
            Option::None
        }),
        table_lookup_spec(es.push(e), "platform"@) == (if table_lookup_spec(
            es,
            "platform"@,
        ) is Some {
            table_lookup_spec(es, "platform"@)
        } else if e.0@ == "platform"@ {
            Option::Some(e.1)
        } else {
            Option::None
        }),
        table_lookup_spec(es.push(e), "sources"@) == (if table_lookup_spec(
            es,
            "sources"@,
        ) is Some {
            table_lookup_spec(es, "sources"@)
        } else if e.0@ == "sources"@ {
            Option::Some(e.1)
        } else {
            Option::None
        }),
        table_lookup_spec(es.push(e), "sha256"@) == (if table_lookup_spec(es, "sha256"@) is Some {
            table_lookup_spec(es, "sha256"@)
        } else if e.0@ == "sha256"@ {
            Option::Some(e.1)
        } else {
            Option::None
        }),
        table_lookup_spec(es.push(e), "digest"@) == (if table_lookup_spec(es, "digest"@) is Some {
            table_lookup_spec(es, "digest"@)
        } else if e.0@ == "digest"@ {
            Option::Some(e.1)
        } else {
            Option::None
        }),
        table_lookup_spec(es.push(e), "generated"@) == (if table_lookup_spec(
            es,
            "generated"@,
        ) is Some {
            table_lookup_spec(es, "generated"@)
        } else if e.0@ == "generated"@ {
            Option::Some(e.1)
        } else {
            Option::None
        }),
        table_lookup_spec(es.push(e), "tlk_version"@) == (if table_lookup_spec(
            es,
            "tlk_version"@,
        ) is Some {
            table_lookup_spec(es, "tlk_version"@)
        } else if e.0@ == "tlk_version"@ {
            Option::Some(e.1)
        } else {
            Option::None
        }),
        table_lookup_spec(es.push(e), "schema"@) == (if table_lookup_spec(es, "schema"@) is Some {
            table_lookup_spec(es, "schema"@)
        } else if e.0@ == "schema"@ {
            Option::Some(e.1)
        } else {
            Option::None
        }),
        table_lookup_spec(es.push(e), "tools"@) == (if table_lookup_spec(es, "tools"@) is Some {
            table_lookup_spec(es, "tools"@)
        } else if e.0@ == "tools"@ {
            Option::Some(e.1)
        } else {
            Option::None
        }),
{
    lemma_lookup_push(es, e, "version"@);
    lemma_lookup_push(es, e, "requested_version"@);
    lemma_lookup_push(es, e, "source"@);
    lemma_lookup_push(es, e, "source_template"@);
    lemma_lookup_push(es, e, "platform"@);
    lemma_lookup_push(es, e, "sources"@);
    lemma_lookup_push(es, e, "sha256"@);
    lemma_lookup_push(es, e, "digest"@);
    lemma_lookup_push(es, e, "generated"@);
    lemma_lookup_push(es, e, "tlk_version"@);
    lemma_lookup_push(es, e, "schema"@);
    lemma_lookup_push(es, e, "tools"@);
}

/// An optional text field of the tree agrees with an optional string.
pub open spec fn opt_text_matches(t: TomlValue, key: Seq<char>, f: Option<String>) -> bool {
    match value_lookup_spec(t, key) {
        Option::Some(TomlValue::Text(s)) => f matches Option::Some(g) && g@ == s@,
        Option::Some(_) => false,
        Option::None => f is None,
    }
}

/// An optional field of the tree is absent or text.
pub open spec fn opt_text_ok(t: TomlValue, key: Seq<char>) -> bool {
    match value_lookup_spec(t, key) {
        Option::Some(TomlValue::Text(_)) => true,
        Option::Some(_) => false,
        Option::None => true,
    }
}

/// A required text field of the tree agrees with a string.
pub open spec fn req_text_matches(t: TomlValue, key: Seq<char>, f: String) -> bool {
    match value_lookup_spec(t, key) {
        Option::Some(TomlValue::Text(s)) => f@ == s@,
        _ => false,
    }
}

/// The `sources` matrix of the tree agrees with an optional pair list.
pub open spec fn sources_match(t: TomlValue, f: Option<Vec<(String, String)>>) -> bool {
    match value_lookup_spec(t, "sources"@) {
        Option::Some(TomlValue::Table(es)) => f matches Option::Some(list) && list@.len()
            == es@.len() && (forall|i: int|
            0 <= i < es@.len() ==> ((#[trigger] es@[i]).1 matches TomlValue::Text(v) && list@[i].0@
                == es@[i].0@ && list@[i].1@ == v@)),
        Option::Some(_) => false,
        Option::None => f is None,
    }
}

/// The `sources` field is absent or a table of texts.
pub open spec fn sources_ok(t: TomlValue) -> bool {
    match value_lookup_spec(t, "sources"@) {
        Option::Some(TomlValue::Table(es)) => forall|i: int|
            0 <= i < es@.len() ==> (#[trigger] es@[i]).1 matches TomlValue::Text(_),
        Option::Some(_) => false,
        Option::None => true,
    }
}

/// The tree is a decodable locked entry.
pub open spec fn is_entry_tree(t: TomlValue) -> bool {
    &&& (value_lookup_spec(t, "version"@) matches Option::Some(v) && v matches TomlValue::Text(_))
    &&& (value_lookup_spec(t, "source"@) matches Option::Some(v) && v matches TomlValue::Text(_))
    &&& opt_text_ok(t, "requested_version"@)
    &&& opt_text_ok(t, "source_template"@)
    &&& opt_text_ok(t, "platform"@)
    &&& opt_text_ok(t, "sha256"@)
    &&& opt_text_ok(t, "digest"@)
    &&& sources_ok(t)
}

/// The entry agrees with the tree on every field.
pub open spec fn entry_corresponds(e: LockedEntry, t: TomlValue) -> bool {
    &&& req_text_matches(t, "version"@, e.version)
    &&& req_text_matches(t, "source"@, e.source)
    &&& opt_text_matches(t, "requested_version"@, e.requested_version)
    &&& opt_text_matches(t, "source_template"@, e.source_template)
    &&& opt_text_matches(t, "platform"@, e.platform)
    &&& opt_text_matches(t, "sha256"@, e.sha256)
    &&& opt_text_matches(t, "digest"@, e.digest)
    &&& sources_match(t, e.sources)
}

/// The `schema` field is absent or a small integer.
pub open spec fn schema_ok(t: TomlValue) -> bool {
    match value_lookup_spec(t, "schema"@) {
        Option::Some(TomlValue::Integer(i)) => 0 <= i <= u32::MAX,
        Option::Some(_) => false,
        Option::None => true,
    }
}

/// The `schema` field agrees with an optional number.
pub open spec fn schema_matches(t: TomlValue, f: Option<u32>) -> bool {
    match value_lookup_spec(t, "schema"@) {
        Option::Some(TomlValue::Integer(i)) => f matches Option::Some(n) && n == i,
        Option::Some(_) => false,
        Option::None => f is None,
    }
}

/// The tree is a decodable schema-3 lock.
pub open spec fn is_v3_lock(t: TomlValue) -> bool {
    &&& (value_lookup_spec(t, "generated"@) matches Option::Some(v) && v matches TomlValue::Text(
        _,
    ))
    &&& opt_text_ok(t, "tlk_version"@)
    &&& schema_ok(t)
    &&& (match value_lookup_spec(t, "tools"@) {
        Option::Some(TomlValue::Table(es)) => forall|i: int|
            0 <= i < es@.len() ==> is_entry_tree((#[trigger] es@[i]).1),
        _ => false,
    })
}

/// The lock agrees with a schema-3 tree on every field.
pub open spec fn v3_corresponds(lf: LockFile, t: TomlValue) -> bool {
    &&& req_text_matches(t, "generated"@, lf.generated)
    &&& opt_text_matches(t, "tlk_version"@, lf.tlk_version)
    &&& schema_matches(t, lf.schema)
    &&& (match value_lookup_spec(t, "tools"@) {
        Option::Some(TomlValue::Table(es)) => lf.tools@.len() == es@.len() && (forall|i: int|
            0 <= i < es@.len() ==> (#[trigger] lf.tools@[i]).0@ == es@[i].0@ && entry_corresponds(
                lf.tools@[i].1,
                es@[i].1,
            )),
        _ => false,
    })
}

/// The tree is a decodable legacy (array-of-tool) lock.
pub open spec fn is_legacy_lock(t: TomlValue) -> bool {
    &&& (value_lookup_spec(t, "generated"@) matches Option::Some(v) && v matches TomlValue::Text(
        _,
    ))
    &&& opt_text_ok(t, "tlk_version"@)
    &&& (match value_lookup_spec(t, "tools"@) {
        Option::Some(TomlValue::List(items)) => forall|i: int|
            0 <= i < items@.len() ==> is_entry_tree(#[trigger] items@[i]) && (value_lookup_spec(
                items@[i],
                "name"@,
            ) matches Option::Some(v) && v matches TomlValue::Text(_)),
        _ => false,
    })
}

/// The upgraded lock agrees with a legacy tree: the same entries in order,
/// rekeyed by their `name` fields, at schema 3.
pub open spec fn legacy_corresponds(lf: LockFile, t: TomlValue) -> bool {
    &&& req_text_matches(t, "generated"@, lf.generated)
    &&& opt_text_matches(t, "tlk_version"@, lf.tlk_version)
    &&& lf.schema == Option::Some(3u32)
    &&& (match value_lookup_spec(t, "tools"@) {
        Option::Some(TomlValue::List(items)) => lf.tools@.len() == items@.len() && (forall|i: int|
            0 <= i < items@.len() ==> (value_lookup_spec(#[trigger] items@[i], "name"@) matches
            Option::Some(TomlValue::Text(nm)) && lf.tools@[i].0@ == nm@) && entry_corresponds(
                lf.tools@[i].1,
                items@[i],
            )),
        _ => false,
    })
}

fn decode_opt_text(t: &TomlValue, key: &str) -> (r: Result<Option<String>, LockError>)
    ensures
        match r {
            Ok(f) => opt_text_ok(*t, key@) && opt_text_matches(*t, key@, f),
            Err(_) => !opt_text_ok(*t, key@),
        },
{
    match value_lookup(t, key) {
        Some(v) => match v.as_text() {
            Some(s) => Ok(Some(s.clone())),
            None => Err(LockError::UnsupportedSchema),
        },
        None => Ok(None),
    }
}

fn decode_req_text(t: &TomlValue, key: &str) -> (r: Result<String, LockError>)
    ensures
        match r {
            Ok(f) => req_text_matches(*t, key@, f),
            Err(_) => !(value_lookup_spec(*t, key@) matches Option::Some(v) && v matches
            TomlValue::Text(_)),
        },
{
    match value_lookup(t, key) {
        Some(v) => match v.as_text() {
            Some(s) => Ok(s.clone()),
            None => Err(LockError::UnsupportedSchema),
        },
        None => Err(LockError::UnsupportedSchema),
    }
}

#[verifier::loop_isolation(false)]
fn decode_sources(t: &TomlValue) -> (r: Result<Option<Vec<(String, String)>>, LockError>)
    ensures
        match r {
            Ok(f) => sources_ok(*t) && sources_match(*t, f),
            Err(_) => !sources_ok(*t),
        },
{
    match value_lookup(t, "sources") {
        Some(v) => match v.as_table() {
            Some(es) => {
                let mut out: Vec<(String, String)> = Vec::new();
                let n = es.len();
                let mut i: usize = 0;
                while i < n
                    invariant
                        n == es.len(),
                        i <= n,
                        out.len() == i,
                        forall|j: int|
                            0 <= j < i ==> ((#[trigger] es@[j]).1 matches TomlValue::Text(v)
                                && out@[j].0@ == es@[j].0@ && out@[j].1@ == v@),
                    decreases n - i,
                {
                    match es[i].1.as_text() {
                        Some(s) => {
                            out.push((es[i].0.clone(), s.clone()));
                        },
                        None => {
                            proof {
                                assert(!((es@[i as int]).1 matches TomlValue::Text(_)));
                                assert(!sources_ok(*t));
                            }
                            return Err(LockError::UnsupportedSchema);
                        },
                    }
                    i += 1;
                }
                Ok(Some(out))
            },
            None => Err(LockError::UnsupportedSchema),
        },
        None => Ok(None),
    }
}

/// Decode one locked entry from a tree.
pub fn decode_entry(t: &TomlValue) -> (r: Result<LockedEntry, LockError>)
    ensures
        match r {
            Ok(e) => is_entry_tree(*t) && entry_corresponds(e, *t),
            Err(_) => !is_entry_tree(*t),
        },
{
    let version = match decode_req_text(t, "version") {
        Ok(v) => v,
        Err(e) => {
            return Err(e);
        },
    };
    let source = match decode_req_text(t, "source") {
        Ok(v) => v,
        Err(e) => {
            return Err(e);
        },
    };
    let requested_version = match decode_opt_text(t, "requested_version") {
        Ok(v) => v,
        Err(e) => {
            return Err(e);
        },
    };
    let source_template = match decode_opt_text(t, "source_template") {
        Ok(v) => v,
        Err(e) => {
            return Err(e);
        },
    };
    let platform = match decode_opt_text(t, "platform") {
        Ok(v) => v,
        Err(e) => {
            return Err(e);
        },
    };
    let sha256 = match decode_opt_text(t, "sha256") {
        Ok(v) => v,
        Err(e) => {
            return Err(e);
        },
    };
    let digest = match decode_opt_text(t, "digest") {
        Ok(v) => v,
        Err(e) => {
            return Err(e);
        },
    };
    let sources = match decode_sources(t) {
        Ok(v) => v,
        Err(e) => {
            return Err(e);
        },
    };
    Ok(
        LockedEntry {
            version,
            requested_version,
            source,
            source_template,
            platform,
            sources,
            sha256,
            digest,
        },
    )
}

#[verifier::loop_isolation(false)]
fn decode_v3(t: &TomlValue) -> (r: Option<LockFile>)
    ensures
        match r {
            Some(lf) => is_v3_lock(*t) && v3_corresponds(lf, *t),
            None => !is_v3_lock(*t),
        },
{
    let generated = match decode_req_text(t, "generated") {
        Ok(v) => v,
        Err(_) => {
            return None;
        },
    };
    let tlk_version = match decode_opt_text(t, "tlk_version") {
        Ok(v) => v,
        Err(_) => {
            return None;
        },
    };
    let schema: Option<u32> = match value_lookup(t, "schema") {
        Some(v) => match v.as_integer() {
            Some(i) => {
                if 0 <= i && i <= u32::MAX as i64 {
                    Some(i as u32)
                } else {
                    return None;
                }
            },
            None => {
                return None;
            },
        },
        None => None,
    };
    let tools_val = match value_lookup(t, "tools") {
        Some(v) => v,
        None => {
            return None;
        },
    };
    let entries = match tools_val.as_table() {
        Some(es) => es,
        None => {
            return None;
        },
    };
    let mut tools: Vec<(String, LockedEntry)> = Vec::new();
    let n = entries.len();
    let mut i: usize = 0;
    while i < n
        invariant
            n == entries.len(),
            i <= n,
            tools.len() == i,
            forall|j: int|
                0 <= j < i ==> is_entry_tree((#[trigger] entries@[j]).1) && tools@[j].0@
                    == entries@[j].0@ && entry_corresponds(tools@[j].1, entries@[j].1),
        decreases n - i,
    {
        match decode_entry(&entries[i].1) {
            Ok(e) => {
                tools.push((entries[i].0.clone(), e));
            },
            Err(_) => {
                proof {
                    assert(!is_entry_tree((entries@[i as int]).1));
                    assert(!is_v3_lock(*t));
                }
                return None;
            },
        }
        i += 1;
    }
    Some(LockFile { generated, tlk_version, schema, tools })
}

#[verifier::loop_isolation(false)]
fn decode_legacy(t: &TomlValue) -> (r: Option<LockFile>)
    ensures
        match r {
            Some(lf) => is_legacy_lock(*t) && legacy_corresponds(lf, *t),
            None => !is_legacy_lock(*t),
        },
{
    let generated = match decode_req_text(t, "generated") {
        Ok(v) => v,
        Err(_) => {
            return None;
        },
    };
    let tlk_version = match decode_opt_text(t, "tlk_version") {
        Ok(v) => v,
        Err(_) => {
            return None;
        },
    };
    let tools_val = match value_lookup(t, "tools") {
        Some(v) => v,
        None => {
            return None;
        },
    };
    let items = match tools_val.as_list() {
        Some(l) => l,
        None => {
            return None;
        },
    };
    let mut tools: Vec<(String, LockedEntry)> = Vec::new();
    let n = items.len();
    let mut i: usize = 0;
    while i < n
        invariant
            n == items.len(),
            i <= n,
            tools.len() == i,
            forall|j: int|
                0 <= j < i ==> is_entry_tree(#[trigger] items@[j]) && (value_lookup_spec(
                    items@[j],
                    "name"@,
                ) matches Option::Some(TomlValue::Text(nm)) && tools@[j].0@ == nm@)
                    && entry_corresponds(tools@[j].1, items@[j]),
        decreases n - i,
    {
        let name = match decode_req_text(&items[i], "name") {
            Ok(v) => v,
            Err(_) => {
                proof {
                    assert(!is_legacy_lock(*t));
                }
                return None;
            },
        };
        match decode_entry(&items[i]) {
            Ok(e) => {
                tools.push((name, e));
            },
            Err(_) => {
                proof {
                    assert(!is_entry_tree(items@[i as int]));
                    assert(!is_legacy_lock(*t));
                }
                return None;
            },
        }
        i += 1;
    }
    Some(LockFile { generated, tlk_version, schema: Some(3), tools })
}

/// Encode one locked entry as a tree, omitting absent fields.
#[verifier::loop_isolation(false)]
#[verifier::rlimit(100)]
fn encode_entry(e: &LockedEntry) -> (r: TomlValue)
    ensures
        is_entry_tree(r),
        entry_corresponds(*e, r),
{
    proof {
        reveal_strlit("version");
        reveal_strlit("requested_version");
        reveal_strlit("source");
        reveal_strlit("source_template");
        reveal_strlit("platform");
        reveal_strlit("sources");
        reveal_strlit("sha256");
        reveal_strlit("digest");
        assert("version"@.len() == 7);
        assert("requested_version"@.len() == 17);
        assert("source"@.len() == 6);
        assert("source_template"@.len() == 15);
        assert("platform"@.len() == 8);
        assert("sources"@.len() == 7);
        assert("sha256"@.len() == 6);
        assert("digest"@.len() == 6);
        assert("version"@[0] == 'v');
        assert("sources"@[0] == 's');
        assert("source"@[1] == 'o');
        assert("sha256"@[1] == 'h');
        assert("source"@[0] == 's');
        assert("digest"@[0] == 'd');
        assert("version"@ != "requested_version"@);
        assert("version"@ != "source"@);
        assert("version"@ != "source_template"@);
        assert("version"@ != "platform"@);
        assert("version"@ != "sources"@);
        assert("version"@ != "sha256"@);
        assert("version"@ != "digest"@);
        assert("requested_version"@ != "source"@);
        assert("requested_version"@ != "source_template"@);
        assert("requested_version"@ != "platform"@);
        assert("requested_version"@ != "sources"@);
        assert("requested_version"@ != "sha256"@);
        assert("requested_version"@ != "digest"@);
        assert("source"@ != "source_template"@);
        assert("source"@ != "platform"@);
        assert("source"@ != "sources"@);
        assert("source"@ != "sha256"@);
        assert("source"@ != "digest"@);
        assert("source_template"@ != "platform"@);
        assert("source_template"@ != "sources"@);
        assert("source_template"@ != "sha256"@);
        assert("source_template"@ != "digest"@);
        assert("platform"@ != "sources"@);
        assert("platform"@ != "sha256"@);
        assert("platform"@ != "digest"@);
        assert("sources"@ != "sha256"@);
        assert("sources"@ != "digest"@);
        assert("sha256"@ != "digest"@);
    }
    let mut es: Vec<(String, TomlValue)> = Vec::new();
    proof {
        assert(es@ =~= Seq::<(String, TomlValue)>::empty());
    }
    let ghost prev = es@;
    es.push(("version".to_owned(), TomlValue::Text(e.version.clone())));
    proof {
        assert(es@[prev.len() as int].0@ == "version"@);
        lemma_lookup_push_all(prev, es@[prev.len() as int]);
        assert(es@ == prev.push(es@[prev.len() as int]));
        assert(table_lookup_spec(es@, "requested_version"@) is None);
        assert(table_lookup_spec(es@, "source"@) is None);
        assert(table_lookup_spec(es@, "source_template"@) is None);
        assert(table_lookup_spec(es@, "platform"@) is None);
        assert(table_lookup_spec(es@, "sources"@) is None);
        assert(table_lookup_spec(es@, "sha256"@) is None);
        assert(table_lookup_spec(es@, "digest"@) is None);
    }
    match &e.requested_version {
        Some(q) => {
            let ghost prev = es@;
            es.push(("requested_version".to_owned(), TomlValue::Text(q.clone())));
            proof {
                assert(es@[prev.len() as int].0@ == "requested_version"@);
                lemma_lookup_push_all(prev, es@[prev.len() as int]);
                assert(es@ == prev.push(es@[prev.len() as int]));
            }
        },
        None => {},
    }
    proof {
        assert(table_lookup_spec(es@, "source"@) is None);
        assert(table_lookup_spec(es@, "source_template"@) is None);
        assert(table_lookup_spec(es@, "platform"@) is None);
        assert(table_lookup_spec(es@, "sources"@) is None);
        assert(table_lookup_spec(es@, "sha256"@) is None);
        assert(table_lookup_spec(es@, "digest"@) is None);
    }
    let ghost prev = es@;
    es.push(("source".to_owned(), TomlValue::Text(e.source.clone())));
    proof {
        assert(es@[prev.len() as int].0@ == "source"@);
        lemma_lookup_push_all(prev, es@[prev.len() as int]);
        assert(es@ == prev.push(es@[prev.len() as int]));
        assert(table_lookup_spec(es@, "source_template"@) is None);
        assert(table_lookup_spec(es@, "platform"@) is None);
        assert(table_lookup_spec(es@, "sources"@) is None);
        assert(table_lookup_spec(es@, "sha256"@) is None);
        assert(table_lookup_spec(es@, "digest"@) is None);
    }
    match &e.source_template {
        Some(q) => {
            let ghost prev = es@;
            es.push(("source_template".to_owned(), TomlValue::Text(q.clone())));
            proof {
                assert(es@[prev.len() as int].0@ == "source_template"@);
                lemma_lookup_push_all(prev, es@[prev.len() as int]);
                assert(es@ == prev.push(es@[prev.len() as int]));
            }
        },
        None => {},
    }
    proof {
        assert(table_lookup_spec(es@, "platform"@) is None);
        assert(table_lookup_spec(es@, "sources"@) is None);
        assert(table_lookup_spec(es@, "sha256"@) is None);
        assert(table_lookup_spec(es@, "digest"@) is None);
    }
    match &e.platform {
        Some(q) => {
            let ghost prev = es@;
            es.push(("platform".to_owned(), TomlValue::Text(q.clone())));
            proof {
                assert(es@[prev.len() as int].0@ == "platform"@);
                lemma_lookup_push_all(prev, es@[prev.len() as int]);
                assert(es@ == prev.push(es@[prev.len() as int]));
            }
        },
        None => {},
    }
    proof {
        assert(table_lookup_spec(es@, "sources"@) is None);
        assert(table_lookup_spec(es@, "sha256"@) is None);
        assert(table_lookup_spec(es@, "digest"@) is None);
    }
    match &e.sources {
        Some(list) => {
            let mut inner: Vec<(String, TomlValue)> = Vec::new();
            let n = list.len();
            let mut i: usize = 0;
            while i < n
                invariant
                    n == list.len(),
                    i <= n,
                    inner.len() == i,
                    forall|j: int|
                        0 <= j < i ==> ((#[trigger] inner@[j]).1 matches TomlValue::Text(v)
                            && inner@[j].0@ == list@[j].0@ && v@ == list@[j].1@),
                decreases n - i,
            {
                inner.push((list[i].0.clone(), TomlValue::Text(list[i].1.clone())));
                i += 1;
            }
            let ghost prev = es@;
            es.push(("sources".to_owned(), TomlValue::Table(inner)));
            proof {
                assert(es@[prev.len() as int].0@ == "sources"@);
                lemma_lookup_push_all(prev, es@[prev.len() as int]);
                assert(es@ == prev.push(es@[prev.len() as int]));
            }
        },
        None => {},
    }
    proof {
        assert(table_lookup_spec(es@, "sha256"@) is None);
        assert(table_lookup_spec(es@, "digest"@) is None);
    }
    match &e.sha256 {
        Some(q) => {
            let ghost prev = es@;
            es.push(("sha256".to_owned(), TomlValue::Text(q.clone())));
            proof {
                assert(es@[prev.len() as int].0@ == "sha256"@);
                lemma_lookup_push_all(prev, es@[prev.len() as int]);
                assert(es@ == prev.push(es@[prev.len() as int]));
            }
        },
        None => {},
    }
    proof {
        assert(table_lookup_spec(es@, "digest"@) is None);
    }
    match &e.digest {
        Some(q) => {
            let ghost prev = es@;
            es.push(("digest".to_owned(), TomlValue::Text(q.clone())));
            proof {
                assert(es@[prev.len() as int].0@ == "digest"@);
                lemma_lookup_push_all(prev, es@[prev.len() as int]);
                assert(es@ == prev.push(es@[prev.len() as int]));
            }
        },
        None => {},
    }
    let r = TomlValue::Table(es);
    proof {
        assert(req_text_matches(r, "version"@, e.version));
        assert(req_text_matches(r, "source"@, e.source));
        assert(opt_text_matches(r, "requested_version"@, e.requested_version));
        assert(opt_text_matches(r, "source_template"@, e.source_template));
        assert(opt_text_matches(r, "platform"@, e.platform));
        assert(opt_text_matches(r, "sha256"@, e.sha256));
        assert(opt_text_matches(r, "digest"@, e.digest));
        assert(sources_match(r, e.sources));
        assert(entry_corresponds(*e, r));
    }
    r
}

/// Field-by-field equality of optional strings, by text.
pub open spec fn opt_view_eq(a: Option<String>, b: Option<String>) -> bool {
    match (a, b) {
        (Option::Some(x), Option::Some(y)) => x@ == y@,
        (Option::None, Option::None) => true,
        _ => false,
    }
}

/// Field-by-field equality of two locked entries, by text.
pub open spec fn entry_same(a: LockedEntry, b: LockedEntry) -> bool {
    &&& a.version@ == b.version@
    &&& a.source@ == b.source@
    &&& opt_view_eq(a.requested_version, b.requested_version)
    &&& opt_view_eq(a.source_template, b.source_template)
    &&& opt_view_eq(a.platform, b.platform)
    &&& opt_view_eq(a.sha256, b.sha256)
    &&& opt_view_eq(a.digest, b.digest)
    &&& (match (a.sources, b.sources) {
        (Option::Some(x), Option::Some(y)) => x@.len() == y@.len() && (forall|i: int|
            0 <= i < x@.len() ==> (#[trigger] x@[i]).0@ == y@[i].0@ && x@[i].1@ == y@[i].1@),
        (Option::None, Option::None) => true,
        _ => false,
    })
}

/// A tree determines the entry it corresponds to, up to text equality.
proof fn lemma_entry_unique(a: LockedEntry, b: LockedEntry, t: TomlValue)
    requires
        entry_corresponds(a, t),
        entry_corresponds(b, t),
    ensures
        entry_same(a, b),
{
    match (a.sources, b.sources) {
        (Option::Some(x), Option::Some(y)) => {
            match value_lookup_spec(t, "sources"@) {
                Option::Some(TomlValue::Table(es)) => {
                    assert forall|i: int| 0 <= i < x@.len() implies (#[trigger] x@[i]).0@
                        == y@[i].0@ && x@[i].1@ == y@[i].1@ by {
                        assert(es@[i].1 matches TomlValue::Text(v) && x@[i].0@ == es@[i].0@
                            && x@[i].1@ == v@);
                    }
                },
                _ => {},
            }
        },
        _ => {},
    }
}

impl LockFile {
    /// A fresh lock around an entry map, stamped by the writer.
    pub fn new(tools: Vec<(String, LockedEntry)>, generated: String, tlk_version: String) -> (r:
        LockFile)
        ensures
            r.generated == generated,
            r.tlk_version == Option::Some(tlk_version),
            r.schema == Option::Some(3u32),
            r.tools == tools,
    {
        LockFile { generated, tlk_version: Some(tlk_version), schema: Some(3), tools }
    }

    /// Load a lock from its value tree: the current schema first, then the
    /// legacy array form upgraded in place; any other shape is refused.
    pub fn load(t: &TomlValue) -> (r: Result<LockFile, LockError>)
        ensures
            match r {
                Ok(lf) => if is_v3_lock(*t) {
                    v3_corresponds(lf, *t)
                } else {
                    is_legacy_lock(*t) && legacy_corresponds(lf, *t)
                },
                Err(e) => !is_v3_lock(*t) && !is_legacy_lock(*t) && (e matches
                LockError::UnsupportedSchema),
            },
    {
        match decode_v3(t) {
            Some(lf) => Ok(lf),
            None => match decode_legacy(t) {
                Some(lf) => Ok(lf),
                None => Err(LockError::UnsupportedSchema),
            },
        }
    }

    /// Save this lock as a value tree at the current schema.  Loading the
    /// result reproduces the lock field for field, apart from the stamped
    /// `tlk_version` and `schema`.
    #[verifier::loop_isolation(false)]
    #[verifier::rlimit(60)]
    pub fn save(&self, tlk_version: &str) -> (r: TomlValue)
        ensures
            is_v3_lock(r),
            req_text_matches(r, "generated"@, self.generated),
            (value_lookup_spec(r, "tlk_version"@) matches Option::Some(TomlValue::Text(s)) && s@
                == tlk_version@),
            (value_lookup_spec(r, "schema"@) matches Option::Some(TomlValue::Integer(i)) && i
                == 3),
            (match value_lookup_spec(r, "tools"@) {
                Option::Some(TomlValue::Table(es)) => self.tools@.len() == es@.len() && (forall|
                    i: int,
                |
                    0 <= i < es@.len() ==> (#[trigger] self.tools@[i]).0@ == es@[i].0@
                        && entry_corresponds(self.tools@[i].1, es@[i].1)),
                _ => false,
            }),
    {
        broadcast use lemma_lookup_push;

        proof {
            reveal_strlit("generated");
            reveal_strlit("tlk_version");
            reveal_strlit("schema");
            reveal_strlit("tools");
            assert("generated"@.len() == 9);
            assert("tlk_version"@.len() == 11);
            assert("schema"@.len() == 6);
            assert("tools"@.len() == 5);
            assert("generated"@ != "tlk_version"@);
            assert("generated"@ != "schema"@);
            assert("generated"@ != "tools"@);
            assert("tlk_version"@ != "schema"@);
            assert("tlk_version"@ != "tools"@);
            assert("schema"@ != "tools"@);
        }
        let mut entries: Vec<(String, TomlValue)> = Vec::new();
        let n = self.tools.len();
        let mut i: usize = 0;
        while i < n
            invariant
                n == self.tools.len(),
                i <= n,
                entries.len() == i,
                forall|j: int|
                    0 <= j < i ==> (#[trigger] self.tools@[j]).0@ == entries@[j].0@
                        && is_entry_tree(entries@[j].1) && entry_corresponds(
                        self.tools@[j].1,
                        entries@[j].1,
                    ),
            decreases n - i,
        {
            let et = encode_entry(&self.tools[i].1);
            entries.push((self.tools[i].0.clone(), et));
            i += 1;
        }
        let mut root: Vec<(String, TomlValue)> = Vec::new();
        proof {
            assert(root@ =~= Seq::<(String, TomlValue)>::empty());
        }
        let ghost prev = root@;
        root.push(("generated".to_owned(), TomlValue::Text(self.generated.clone())));
        proof {
            assert(root@[prev.len() as int].0@ == "generated"@);
            lemma_lookup_push_all(prev, root@[prev.len() as int]);
            assert(root@ == prev.push(root@[prev.len() as int]));
            assert(table_lookup_spec(root@, "tlk_version"@) is None);
            assert(table_lookup_spec(root@, "schema"@) is None);
            assert(table_lookup_spec(root@, "tools"@) is None);
        }
        let ghost prev = root@;
        root.push(("tlk_version".to_owned(), TomlValue::Text(tlk_version.to_owned())));
        proof {
            assert(root@[prev.len() as int].0@ == "tlk_version"@);
            lemma_lookup_push_all(prev, root@[prev.len() as int]);
            assert(root@ == prev.push(root@[prev.len() as int]));
            assert(table_lookup_spec(root@, "schema"@) is None);
            assert(table_lookup_spec(root@, "tools"@) is None);
        }
        let ghost prev = root@;
        root.push(("schema".to_owned(), TomlValue::Integer(3)));
        proof {
            assert(root@[prev.len() as int].0@ == "schema"@);
            lemma_lookup_push_all(prev, root@[prev.len() as int]);
            assert(root@ == prev.push(root@[prev.len() as int]));
            assert(table_lookup_spec(root@, "tools"@) is None);
        }
        let ghost entv = entries@;
        let ghost prev = root@;
        root.push(("tools".to_owned(), TomlValue::Table(entries)));
        proof {
            assert(root@[prev.len() as int].0@ == "tools"@);
            lemma_lookup_push_all(prev, root@[prev.len() as int]);
            assert(root@ == prev.push(root@[prev.len() as int]));
        }
        let r = TomlValue::Table(root);
        proof {
            broadcast use lemma_lookup_push;

            assert(req_text_matches(r, "generated"@, self.generated));
            assert(value_lookup_spec(r, "tlk_version"@) matches Option::Some(TomlValue::Text(s))
                && s@ == tlk_version@);
            assert(value_lookup_spec(r, "schema"@) matches Option::Some(TomlValue::Integer(i)) && i
                == 3);
            assert(value_lookup_spec(r, "tools"@) matches Option::Some(v) && v matches
                TomlValue::Table(_));
            assert(value_lookup_spec(r, "tools"@) == Option::Some(root@[3].1));
            assert(root@[3].1 matches TomlValue::Table(ev) && ev@ == entv);
            assert forall|j: int| 0 <= j < entv.len() implies is_entry_tree(
                (#[trigger] entv[j]).1,
            ) by {
                assert(self.tools@[j].0@ == entv[j].0@);
            }
            assert(is_v3_lock(r));
        }
        r
    }
}

/// Saving a lock and loading the saved tree reproduces it: the same
/// generation stamp and the same tools in order, field for field, with
/// the writer's `tlk_version` and the current schema stamped in.
pub proof fn lemma_lock_round_trip(orig: LockFile, ver: Seq<char>, t: TomlValue, loaded: LockFile)
    requires
        req_text_matches(t, "generated"@, orig.generated),
        value_lookup_spec(t, "tlk_version"@) matches Option::Some(TomlValue::Text(s)) && s@ == ver,
        value_lookup_spec(t, "schema"@) matches Option::Some(TomlValue::Integer(i)) && i == 3,
        (match value_lookup_spec(t, "tools"@) {
            Option::Some(TomlValue::Table(es)) => orig.tools@.len() == es@.len() && (forall|i: int|
                0 <= i < es@.len() ==> (#[trigger] orig.tools@[i]).0@ == es@[i].0@
                    && entry_corresponds(orig.tools@[i].1, es@[i].1)),
            _ => false,
        }),
        v3_corresponds(loaded, t),
    ensures
        loaded.generated@ == orig.generated@,
        loaded.tlk_version matches Option::Some(s) && s@ == ver,
        loaded.schema == Option::Some(3u32),
        loaded.tools@.len() == orig.tools@.len(),
        forall|i: int|
            0 <= i < orig.tools@.len() ==> (#[trigger] loaded.tools@[i]).0@ == orig.tools@[i].0@
                && entry_same(loaded.tools@[i].1, orig.tools@[i].1),
{
    let es = (match value_lookup_spec(t, "tools"@) {
        Option::Some(TomlValue::Table(es)) => es,
        _ => arbitrary(),
    });
    assert forall|i: int| 0 <= i < orig.tools@.len() implies (#[trigger] loaded.tools@[i]).0@
        == orig.tools@[i].0@ && entry_same(loaded.tools@[i].1, orig.tools@[i].1) by {
        lemma_entry_unique(loaded.tools@[i].1, orig.tools@[i].1, es@[i].1);
    }
}

} // verus!

verus! {

/// Build the lock entry for one resolved tool: the exact version, the
/// requested range when one was given, the rendered source for the host,
/// the template it came from, the host platform key, and, when the template
/// names both `{os}` and `{arch}`, the full six-entry cross-platform source
/// matrix over linux, darwin and windows on amd64 and arm64.
#[verifier::rlimit(30)]
pub fn to_locked_entry(
    name: &str,
    exact_version: &str,
    requested_version: Option<&str>,
    rendered_source: &str,
    template: &str,
    sha256: &Option<String>,
    digest: Option<String>,
    os: &str,
    arch: &str,
) -> (r: (String, LockedEntry))
    ensures
        r.0@ == name@,
        r.1.version@ == exact_version@,
        (match (r.1.requested_version, requested_version) {
            (Option::Some(a), Option::Some(b)) => a@ == b@,
            (Option::None, Option::None) => true,
            _ => false,
        }),
        r.1.source@ == rendered_source@,
        (r.1.source_template matches Option::Some(tq) && tq@ == template@),
        (r.1.platform matches Option::Some(p) && p@ == os@ + "-"@ + arch@),
        r.1.sha256 == *sha256,
        r.1.digest == digest,
        (if text::contains_spec(template@, "{os}"@) && text::contains_spec(template@, "{arch}"@) {
            r.1.sources matches Option::Some(m) && m@.len() == 6 && m@[0].0@ == "linux-amd64"@
                && m@[0].1@ == crate::installer::render_spec(
                template@,
                exact_version@,
                "linux"@,
                "amd64"@,
            ) && m@[1].0@ == "linux-arm64"@ && m@[1].1@ == crate::installer::render_spec(
                template@,
                exact_version@,
                "linux"@,
                "arm64"@,
            ) && m@[2].0@ == "darwin-amd64"@ && m@[2].1@ == crate::installer::render_spec(
                template@,
                exact_version@,
                "darwin"@,
                "amd64"@,
            ) && m@[3].0@ == "darwin-arm64"@ && m@[3].1@ == crate::installer::render_spec(
                template@,
                exact_version@,
                "darwin"@,
                "arm64"@,
            ) && m@[4].0@ == "windows-amd64"@ && m@[4].1@ == crate::installer::render_spec(
                template@,
                exact_version@,
                "windows"@,
                "amd64"@,
            ) && m@[5].0@ == "windows-arm64"@ && m@[5].1@ == crate::installer::render_spec(
                template@,
                exact_version@,
                "windows"@,
                "arm64"@,
            )
        } else {
            r.1.sources is None
        }),
{
    let mut platform_key = os.to_owned();
    platform_key.append("-");
    platform_key.append(arch);
    proof {
        assert(platform_key@ == os@ + "-"@ + arch@);
    }
    let sources: Option<Vec<(String, String)>> = if text::contains_str(template, "{os}")
        && text::contains_str(template, "{arch}") {
        let mut m: Vec<(String, String)> = Vec::new();
        m.push(
            (
                "linux-amd64".to_owned(),
                crate::installer::render_template(template, exact_version, "linux", "amd64"),
            ),
        );
        m.push(
            (
                "linux-arm64".to_owned(),
                crate::installer::render_template(template, exact_version, "linux", "arm64"),
            ),
        );
        m.push(
            (
                "darwin-amd64".to_owned(),
                crate::installer::render_template(template, exact_version, "darwin", "amd64"),
            ),
        );
        m.push(
            (
                "darwin-arm64".to_owned(),
                crate::installer::render_template(template, exact_version, "darwin", "arm64"),
            ),
        );
        m.push(
            (
                "windows-amd64".to_owned(),
                crate::installer::render_template(template, exact_version, "windows", "amd64"),
            ),
        );
        m.push(
            (
                "windows-arm64".to_owned(),
                crate::installer::render_template(template, exact_version, "windows", "arm64"),
            ),
        );
        Some(m)
    } else {
        None
    };
    let entry = LockedEntry {
        version: exact_version.to_owned(),
        requested_version: match requested_version {
            Some(q) => Some(q.to_owned()),
            None => None,
        },
        source: rendered_source.to_owned(),
        source_template: Some(template.to_owned()),
        platform: Some(platform_key),
        sources,
        sha256: crate::config::duplicate_opt_string(sha256),
        digest,
    };
    (name.to_owned(), entry)
}

} // verus!
