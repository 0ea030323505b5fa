//! Migrations: rewriting a legacy `[[tools]]` manifest into keyed tables,
//! and removing entries from manifest and lock trees.  These transforms
//! consume their input tree and rebuild it.
use vstd::prelude::*;

use crate::text;
use crate::toml_model::{table_lookup_spec, value_lookup, value_lookup_spec, TomlValue};

verus! {

/// The entries of a table with one key dropped, in order.
pub open spec fn filtered_entries(es: Seq<(String, TomlValue)>, dropped: Seq<char>) -> Seq<
    (String, TomlValue),
>
    decreases es.len(),
{
    if es.len() == 0 {
        Seq::empty()
    } else if es[0].0@ == dropped {
        filtered_entries(es.skip(1), dropped)
    } else {
        seq![es[0]] + filtered_entries(es.skip(1), dropped)
    }
}

/// Looking another key up after dropping one finds what the full list finds.
proof fn lemma_lookup_filtered(es: Seq<(String, TomlValue)>, dropped: Seq<char>, key: Seq<char>)
    requires
        key != dropped,
    ensures
        table_lookup_spec(filtered_entries(es, dropped), key) == table_lookup_spec(es, key),
    decreases es.len(),
{
    if es.len() == 0 {
    } else if es[0].0@ == dropped {
        lemma_lookup_filtered(es.skip(1), dropped, key);
    } else {
        let rest = filtered_entries(es.skip(1), dropped);
        assert((seq![es[0]] + rest)[0] == es[0]);
        assert((seq![es[0]] + rest).skip(1) =~= rest);
        lemma_lookup_filtered(es.skip(1), dropped, key);
    }
}

/// The dropped key is gone.
proof fn lemma_filtered_absent(es: Seq<(String, TomlValue)>, dropped: Seq<char>)
    ensures
        table_lookup_spec(filtered_entries(es, dropped), dropped) is None,
    decreases es.len(),
{
    if es.len() == 0 {
    } else if es[0].0@ == dropped {
        lemma_filtered_absent(es.skip(1), dropped);
    } else {
        let rest = filtered_entries(es.skip(1), dropped);
        assert((seq![es[0]] + rest)[0] == es[0]);
        assert((seq![es[0]] + rest).skip(1) =~= rest);
        lemma_filtered_absent(es.skip(1), dropped);
    }
}

/// Take a table's entries, dropping one key.
#[verifier::loop_isolation(false)]
pub fn drop_key(es: Vec<(String, TomlValue)>, dropped: &str) -> (r: Vec<(String, TomlValue)>)
    ensures
        r@ == filtered_entries(es@, dropped@),
        forall|k: Seq<char>| k != dropped@ ==> table_lookup_spec(r@, k) == table_lookup_spec(
            es@,
            k,
        ),
        table_lookup_spec(r@, dropped@) is None,
{
    let ghost ev = es@;
    let mut es = es;
    let mut out: Vec<(String, TomlValue)> = Vec::new();
    proof {
        assert(out@ =~= Seq::<(String, TomlValue)>::empty());
        assert(out@ + filtered_entries(es@, dropped@) =~= filtered_entries(ev, dropped@));
    }
    while es.len() > 0
        invariant
            filtered_entries(ev, dropped@) == out@ + filtered_entries(es@, dropped@),
        decreases es.len(),
    {
        let ghost before = out@;
        let ghost rem = es@;
        let e = es.remove(0);
        proof {
            assert(es@ =~= rem.skip(1));
        }
        if !text::str_eq(e.0.as_str(), dropped) {
            let ghost epair = e;
            out.push(e);
            proof {
                assert(out@ =~= before.push(epair));
                assert(before + (seq![epair] + filtered_entries(rem.skip(1), dropped@)) =~= out@
                    + filtered_entries(rem.skip(1), dropped@));
            }
        }
    }
    proof {
        assert(es@.len() == 0);
        assert(filtered_entries(es@, dropped@) =~= Seq::<(String, TomlValue)>::empty());
        assert(out@ + Seq::<(String, TomlValue)>::empty() =~= out@);
        assert(out@ =~= filtered_entries(ev, dropped@));
        assert forall|k: Seq<char>| k != dropped@ implies table_lookup_spec(out@, k)
            == table_lookup_spec(ev, k) by {
            lemma_lookup_filtered(ev, dropped@, k);
        }
        lemma_filtered_absent(ev, dropped@);
    }
    out
}

/// The migrated `tools` table for a legacy array: one keyed entry per table
/// item that carries a text `name`, in order, keyed by that name, with the
/// `name` key dropped from the entry's body and everything else kept.
pub open spec fn migrated_items_match(items: Seq<TomlValue>, es: Seq<(String, TomlValue)>) -> bool
    decreases items.len(),
{
    if items.len() == 0 {
        es.len() == 0
    } else {
        match items[0] {
            TomlValue::Table(body) => {
                match table_lookup_spec(body@, "name"@) {
                    Option::Some(TomlValue::Text(nm)) => {
                        &&& es.len() > 0
                        &&& es[0].0@ == nm@
                        &&& (es[0].1 matches TomlValue::Table(fb) && fb@ == filtered_entries(
                            body@,
                            "name"@,
                        ))
                        &&& migrated_items_match(items.skip(1), es.skip(1))
                    },
                    _ => migrated_items_match(items.skip(1), es),
                }
            },
            _ => migrated_items_match(items.skip(1), es),
        }
    }
}

/// Take the bindings of one key out of a table's entries: the first bound
/// value, and the remaining entries in order.
#[verifier::loop_isolation(false)]
pub fn take_key(es: Vec<(String, TomlValue)>, key: &str) -> (r: (
    Vec<(String, TomlValue)>,
    Option<TomlValue>,
))
    ensures
        r.0@ == filtered_entries(es@, key@),
        (match r.1 {
            Some(v) => table_lookup_spec(es@, key@) == Option::Some(v),
            None => table_lookup_spec(es@, key@) is None,
        }),
{
    let ghost ev = es@;
    let mut es = es;
    let mut out: Vec<(String, TomlValue)> = Vec::new();
    let mut taken: Option<TomlValue> = None;
    proof {
        assert(out@ =~= Seq::<(String, TomlValue)>::empty());
        assert(out@ + filtered_entries(es@, key@) =~= filtered_entries(ev, key@));
    }
    while es.len() > 0
        invariant
            filtered_entries(ev, key@) == out@ + filtered_entries(es@, key@),
            (match taken {
                Some(v) => table_lookup_spec(ev, key@) == Option::Some(v),
                None => table_lookup_spec(ev, key@) == table_lookup_spec(es@, key@),
            }),
        decreases es.len(),
    {
        let ghost before = out@;
        let ghost rem = es@;
        let e = es.remove(0);
        proof {
            assert(es@ =~= rem.skip(1));
        }
        if text::str_eq(e.0.as_str(), key) {
            if taken.is_none() {
                taken = Some(e.1);
            }
        } else {
            let ghost epair = e;
            out.push(e);
            proof {
                assert(out@ =~= before.push(epair));
                assert(before + (seq![epair] + filtered_entries(rem.skip(1), key@)) =~= out@
                    + filtered_entries(rem.skip(1), key@));
            }
        }
    }
    proof {
        assert(filtered_entries(es@, key@) =~= Seq::<(String, TomlValue)>::empty());
        assert(out@ + Seq::<(String, TomlValue)>::empty() =~= out@);
    }
    (out, taken)
}

/// Rewrite a manifest that declares its tools as a legacy array into the
/// keyed-table form: each array element becomes an entry under its `name`,
/// elements without a usable name are passed over, and every other
/// top-level key is kept.  `None` when there is no legacy array to migrate.
#[verifier::loop_isolation(false)]
#[verifier::rlimit(60)]
pub fn migrate_config(root: TomlValue) -> (r: Option<TomlValue>)
    ensures
        match r {
            Some(new_root) => {
                &&& (value_lookup_spec(root, "tools"@) matches Option::Some(v) && v matches
                TomlValue::List(items) && items@.len() > 0)
                &&& (forall|k: Seq<char>| k != "tools"@ ==> value_lookup_spec(new_root, k)
                    == value_lookup_spec(root, k))
                &&& (match (value_lookup_spec(root, "tools"@), value_lookup_spec(
                    new_root,
                    "tools"@,
                )) {
                    (
                        Option::Some(TomlValue::List(items)),
                        Option::Some(TomlValue::Table(es)),
                    ) => migrated_items_match(items@, es@),
                    _ => false,
                })
            },
            None => !(value_lookup_spec(root, "tools"@) matches Option::Some(v) && v matches
            TomlValue::List(items) && items@.len() > 0),
        },
{
    let ghost rootv = root;
    let has_list = match value_lookup(&root, "tools") {
        Some(v) => match v.as_list() {
            Some(items) => items.len() > 0,
            None => false,
        },
        None => false,
    };
    if !has_list {
        return None;
    }
    let entries: Vec<(String, TomlValue)> = match root {
        TomlValue::Table(es) => es,
        _ => {
            proof {
                assert(false);
            }
            return None;
        },
    };
    let ghost ev0 = entries@;
    let (rest, tools_v) = take_key(entries, "tools");
    let mut items: Vec<TomlValue> = match tools_v {
        Some(tv) => match tv {
            TomlValue::List(items) => items,
            _ => {
                proof {
                    assert(false);
                }
                return None;
            },
        },
        None => {
            proof {
                assert(false);
            }
            return None;
        },
    };
    let ghost iv = items@;
    let mut tools_table: Vec<(String, TomlValue)> = Vec::new();
    proof {
        assert(tools_table@ =~= Seq::<(String, TomlValue)>::empty());
    }
    while items.len() > 0
        invariant
            forall|rest2: Seq<(String, TomlValue)>|
                migrated_items_match(items@, rest2) ==> migrated_items_match(
                    iv,
                    tools_table@ + rest2,
                ),
        decreases items.len(),
    {
        let ghost before = tools_table@;
        let ghost rem = items@;
        let name_opt: Option<String> = match value_lookup(&items[0], "name") {
            Some(nv) => match nv.as_text() {
                Some(nm) => Some(nm.clone()),
                None => None,
            },
            None => None,
        };
        let item = items.remove(0);
        proof {
            assert(items@ =~= rem.skip(1));
            assert(item == rem[0]);
        }
        match item {
            TomlValue::Table(body) => {
                match name_opt {
                    Some(name) => {
                        let filtered = drop_key(body, "name");
                        let ghost pushedv = TomlValue::Table(filtered);
                        let ghost namev = name;
                        tools_table.push((name, TomlValue::Table(filtered)));
                        proof {
                            let pushed = tools_table@[before.len() as int];
                            assert(tools_table@ =~= before.push(pushed));
                            assert forall|rest2: Seq<(String, TomlValue)>|
                                migrated_items_match(rem.skip(1), rest2) implies
                                migrated_items_match(iv, tools_table@ + rest2) by {
                                assert((seq![pushed] + rest2)[0] == pushed);
                                assert((seq![pushed] + rest2).skip(1) =~= rest2);
                                assert(migrated_items_match(rem, seq![pushed] + rest2));
                                assert(before + (seq![pushed] + rest2) =~= tools_table@ + rest2);
                            }
                        }
                    },
                    None => {
                        proof {
                            assert forall|rest2: Seq<(String, TomlValue)>|
                                migrated_items_match(rem.skip(1), rest2) implies
                                migrated_items_match(iv, tools_table@ + rest2) by {
                                assert(migrated_items_match(rem, rest2));
                            }
                        }
                    },
                }
            },
            _ => {
                proof {
                    assert forall|rest2: Seq<(String, TomlValue)>|
                        migrated_items_match(rem.skip(1), rest2) implies migrated_items_match(
                        iv,
                        tools_table@ + rest2,
                    ) by {
                        assert(migrated_items_match(rem, rest2));
                    }
                }
            },
        }
    }
    proof {
        assert(items@.len() == 0);
        assert(migrated_items_match(items@, Seq::<(String, TomlValue)>::empty()));
        assert(tools_table@ + Seq::<(String, TomlValue)>::empty() =~= tools_table@);
        assert(migrated_items_match(iv, tools_table@));
    }
    let mut new_entries = rest;
    let ghost filtered_v = new_entries@;
    new_entries.push(("tools".to_owned(), TomlValue::Table(tools_table)));
    let new_root = TomlValue::Table(new_entries);
    proof {
        assert(new_entries@ == filtered_v.push(new_entries@[filtered_v.len() as int]));
        assert(new_entries@[filtered_v.len() as int].0@ == "tools"@);
        crate::lock::lemma_lookup_push(
            filtered_v,
            new_entries@[filtered_v.len() as int],
            "tools"@,
        );
        lemma_filtered_absent(ev0, "tools"@);
        assert forall|k: Seq<char>| k != "tools"@ implies value_lookup_spec(new_root, k)
            == value_lookup_spec(rootv, k) by {
            crate::lock::lemma_lookup_push(
                filtered_v,
                new_entries@[filtered_v.len() as int],
                k,
            );
            lemma_lookup_filtered(ev0, "tools"@, k);
        }
    }
    Some(new_root)
}

} // verus!

verus! {

/// Keys decide absence: lists with pointwise-equal keys miss the same names.
proof fn lemma_lookup_none_same_keys(
    a: Seq<(String, TomlValue)>,
    b: Seq<(String, TomlValue)>,
    key: Seq<char>,
)
    requires
        a.len() == b.len(),
        forall|j: int| 0 <= j < a.len() ==> (#[trigger] a[j]).0 == b[j].0,
        table_lookup_spec(a, key) is None,
    ensures
        table_lookup_spec(b, key) is None,
    decreases a.len(),
{
    if a.len() > 0 {
        assert(forall|j: int|
            0 <= j < a.skip(1).len() ==> (#[trigger] a.skip(1)[j]).0 == b.skip(1)[j].0);
        lemma_lookup_none_same_keys(a.skip(1), b.skip(1), key);
    }
}

/// A legacy array item names the tool: its `name` key holds that text.
pub open spec fn tool_item_named(item: TomlValue, name: Seq<char>) -> bool {
    value_lookup_spec(item, "name"@) matches Option::Some(TomlValue::Text(t)) && t@ == name
}

/// The array items that do not name the tool, in order.
pub open spec fn tools_items_without(items: Seq<TomlValue>, name: Seq<char>) -> Seq<TomlValue>
    decreases items.len(),
{
    if items.len() == 0 {
        Seq::empty()
    } else if tool_item_named(items[0], name) {
        tools_items_without(items.skip(1), name)
    } else {
        seq![items[0]] + tools_items_without(items.skip(1), name)
    }
}

/// One manifest entry after removal: a `tools` list keeps exactly the items
/// that do not name the tool; every other entry is unchanged.
pub open spec fn entry_without_tool(
    e: (String, TomlValue),
    o: (String, TomlValue),
    name: Seq<char>,
) -> bool {
    &&& o.0 == e.0
    &&& (if e.0@ == "tools"@ {
        match e.1 {
            TomlValue::List(items) => o.1 matches TomlValue::List(ni) && ni@
                == tools_items_without(items@, name),
            _ => o.1 == e.1,
        }
    } else {
        o.1 == e.1
    })
}

/// Remove a tool from the manifest tree: a shorthand text entry under the
/// name goes, a legacy `tools` array keeps every element but those named
/// so, and every other entry is kept unchanged in order.
#[verifier::loop_isolation(false)]
pub fn remove_from_config(root: TomlValue, name: &str) -> (r: TomlValue)
    ensures
        (match root {
            TomlValue::Table(es) => r matches TomlValue::Table(res) && ({
                let kept = if value_lookup_spec(root, name@) matches Option::Some(
                    TomlValue::Text(_),
                ) {
                    filtered_entries(es@, name@)
                } else {
                    es@
                };
                &&& res@.len() == kept.len()
                &&& (forall|j: int|
                    0 <= j < kept.len() ==> entry_without_tool(
                        #[trigger] kept[j],
                        res@[j],
                        name@,
                    ))
                &&& ((value_lookup_spec(root, name@) matches Option::Some(TomlValue::Text(_)))
                    ==> table_lookup_spec(res@, name@) is None)
            }),
            _ => r == root,
        }),
{
    let shorthand_present = match value_lookup(&root, name) {
        Some(v) => v.as_text().is_some(),
        None => false,
    };
    let ghost rootv = root;
    proof {
        assert(shorthand_present == (value_lookup_spec(rootv, name@) matches Option::Some(
            TomlValue::Text(_),
        )));
    }
    let entries: Vec<(String, TomlValue)> = match root {
        TomlValue::Table(es) => es,
        other => {
            return other;
        },
    };
    let mut kept: Vec<(String, TomlValue)> = if shorthand_present {
        drop_key(entries, name)
    } else {
        entries
    };
    let ghost kv = kept@;
    let mut out: Vec<(String, TomlValue)> = Vec::new();
    proof {
        assert(out@ =~= Seq::<(String, TomlValue)>::empty());
    }
    while kept.len() > 0
        invariant
            out@.len() + kept@.len() == kv.len(),
            forall|j: int| 0 <= j < out@.len() ==> entry_without_tool(
                kv[j],
                #[trigger] out@[j],
                name@,
            ),
            forall|j: int| 0 <= j < kept@.len() ==> (#[trigger] kept@[j]) == kv[
                j + (kv.len() - kept@.len())
            ],
        decreases kept.len(),
    {
        let ghost before = out@;
        let ghost rem = kept@;
        let e = kept.remove(0);
        let ghost ev = e;
        proof {
            assert(kept@ =~= rem.skip(1));
            assert(ev == kv[before.len() as int]);
        }
        let is_tools = text::str_eq(e.0.as_str(), "tools");
        if is_tools {
            match e.1 {
                TomlValue::List(items) => {
                    let mut items = items;
                    let ghost iv0 = items@;
                    let mut newitems: Vec<TomlValue> = Vec::new();
                    proof {
                        assert(newitems@ =~= Seq::<TomlValue>::empty());
                        assert(newitems@ + tools_items_without(items@, name@)
                            =~= tools_items_without(iv0, name@));
                    }
                    while items.len() > 0
                        invariant
                            tools_items_without(iv0, name@) == newitems@ + tools_items_without(
                                items@,
                                name@,
                            ),
                        decreases items.len(),
                    {
                        let ghost nbefore = newitems@;
                        let ghost irem = items@;
                        let keep = match value_lookup(&items[0], "name") {
                            Some(nv) => match nv.as_text() {
                                Some(nm) => !text::str_eq(nm.as_str(), name),
                                None => true,
                            },
                            None => true,
                        };
                        proof {
                            assert(keep == !tool_item_named(irem[0], name@));
                        }
                        let item = items.remove(0);
                        let ghost itv = item;
                        proof {
                            assert(items@ =~= irem.skip(1));
                        }
                        if keep {
                            newitems.push(item);
                            proof {
                                assert(newitems@ =~= nbefore.push(itv));
                                assert(nbefore + (seq![itv] + tools_items_without(
                                    irem.skip(1),
                                    name@,
                                )) =~= newitems@ + tools_items_without(irem.skip(1), name@));
                            }
                        }
                    }
                    proof {
                        assert(tools_items_without(items@, name@) =~= Seq::<TomlValue>::empty());
                        assert(newitems@ + Seq::<TomlValue>::empty() =~= newitems@);
                    }
                    out.push((e.0, TomlValue::List(newitems)));
                },
                other => {
                    out.push((e.0, other));
                },
            }
        } else {
            out.push((e.0, e.1));
        }
        proof {
            assert(out@.len() == before.len() + 1);
            assert(forall|j: int| 0 <= j < before.len() ==> out@[j] == before[j]);
            assert(entry_without_tool(kv[before.len() as int], out@[before.len() as int], name@));
        }
    }
    proof {
        assert forall|j: int| 0 <= j < kv.len() implies (#[trigger] out@[j]).0 == kv[j].0 by {
            assert(entry_without_tool(kv[j], out@[j], name@));
        }
        if shorthand_present {
            lemma_lookup_none_same_keys(kv, out@, name@);
        }
    }
    TomlValue::Table(out)
}

/// The lock entries that do not carry a name.
pub open spec fn lock_entries_without(
    tools: Seq<(String, crate::lock::LockedEntry)>,
    name: Seq<char>,
) -> Seq<(String, crate::lock::LockedEntry)>
    decreases tools.len(),
{
    if tools.len() == 0 {
        Seq::empty()
    } else if tools[0].0@ == name {
        lock_entries_without(tools.skip(1), name)
    } else {
        seq![tools[0]] + lock_entries_without(tools.skip(1), name)
    }
}

/// Remove a tool's entry from a lock map, keeping the rest in order.
#[verifier::loop_isolation(false)]
pub fn remove_from_lock(tools: &mut Vec<(String, crate::lock::LockedEntry)>, name: &str)
    ensures
        final(tools)@ == lock_entries_without(old(tools)@, name@),
        forall|j: int| 0 <= j < final(tools)@.len() ==> (#[trigger] final(tools)@[j]).0@ != name@,
{
    let ghost ev = tools@;
    let mut src: Vec<(String, crate::lock::LockedEntry)> = Vec::new();
    core::mem::swap(tools, &mut src);
    let mut out: Vec<(String, crate::lock::LockedEntry)> = Vec::new();
    proof {
        assert(out@ =~= Seq::<(String, crate::lock::LockedEntry)>::empty());
        assert(out@ + lock_entries_without(src@, name@) =~= lock_entries_without(ev, name@));
    }
    while src.len() > 0
        invariant
            lock_entries_without(ev, name@) == out@ + lock_entries_without(src@, name@),
            forall|j: int| 0 <= j < out@.len() ==> (#[trigger] out@[j]).0@ != name@,
        decreases src.len(),
    {
        let ghost before = out@;
        let ghost rem = src@;
        let e = src.remove(0);
        proof {
            assert(src@ =~= rem.skip(1));
        }
        if !text::str_eq(e.0.as_str(), name) {
            let ghost epair = e;
            out.push(e);
            proof {
                assert(out@ =~= before.push(epair));
                assert(before + (seq![epair] + lock_entries_without(rem.skip(1), name@)) =~= out@
                    + lock_entries_without(rem.skip(1), name@));
            }
        }
    }
    proof {
        assert(lock_entries_without(src@, name@)
            =~= Seq::<(String, crate::lock::LockedEntry)>::empty());
        assert(out@ + Seq::<(String, crate::lock::LockedEntry)>::empty() =~= out@);
    }
    *tools = out;
}

} // verus!
